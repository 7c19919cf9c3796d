//! The pixel framebuffer: one destination cell per screen fragment.
//!
//! Fragment coordinates live in the unit square; `points` hands out one
//! fragment per cell and `write_at` maps a fragment back to its cell by
//! rounding to nearest, so the two are exact inverses
//! (`lemma_fragment_cell_roundtrip`).  Completed fragments may be delivered
//! in any order: `apply_writes` is insensitive to permutation
//! (`lemma_writes_order_independent`), which is what lets concurrent and
//! sequential renders of the same scene fill identical buffers.

use vstd::prelude::*;

verus! {

use crate::color::screen_space_color::ScreenSpaceColor;
use crate::math::point2d::Point2D;
use crate::math::scalar::SCALE;
use crate::math::scalar::Scalar;
use crate::math::scalar::tdiv;
use crate::math::scalar::tdiv_i128;
use vstd::arithmetic::div_mod::lemma_div_by_multiple;
use vstd::arithmetic::div_mod::lemma_fundamental_div_mod;
use vstd::arithmetic::div_mod::lemma_mod_bound;
use vstd::arithmetic::div_mod::lemma_round_down;
use vstd::arithmetic::div_mod::lemma_mod_multiples_basic;

/// The unit-square coordinate of cell `x` out of `n`: `x / (n - 1)`, so
/// that the first and last cells map to 0 and 1 exactly.
pub open spec fn frag_coord(x: int, n: int) -> int {
    if n <= 1 {
        0
    } else {
        tdiv(x * SCALE, n - 1)
    }
}

/// The cell a unit-square coordinate lands in, rounded to nearest.
pub open spec fn frag_cell(u: int, n: int) -> int {
    (u * (n - 1) + 32768) / (SCALE as int)
}

/// Whether the coordinate lands inside the row or column at all.
pub open spec fn cell_ok(u: int, n: int) -> bool {
    0 <= frag_cell(u, n) < n
}

/// The fragment owning cell `n` of a `w` by `h` buffer.
pub open spec fn frag_point(n: int, w: int, h: int) -> Point2D {
    Point2D {
        x: Scalar { raw: frag_coord(n % w, w) as i64 },
        y: Scalar { raw: frag_coord(n / w, h) as i64 },
    }
}

/// A fragment's own cell recovers the cell it was made from.
pub proof fn lemma_fragment_cell_roundtrip(x: int, n: int)
    requires
        1 <= n <= 32768,
        0 <= x < n,
    ensures
        cell_ok(frag_coord(x, n), n),
        frag_cell(frag_coord(x, n), n) == x,
{
    if n == 1 {
        assert(frag_coord(x, 1) == 0);
        assert(frag_cell(0, 1) == 32768int / 65536);
    } else {
        let u = frag_coord(x, n);
        lemma_fundamental_div_mod(x * SCALE, n - 1);
        lemma_mod_bound(x * SCALE, n - 1);
        assert(x * SCALE >= 0) by (nonlinear_arith)
            requires
                x >= 0,
        ;
        let rem = (x * SCALE) % (n - 1);
        assert(u * (n - 1) == x * SCALE - rem) by (nonlinear_arith)
            requires
                x * SCALE == (n - 1) * ((x * SCALE) / (n - 1)) + rem,
                u == (x * SCALE) / (n - 1),
        ;
        let num = u * (n - 1) + 32768;
        assert(x * SCALE + 32768 - (n - 1) <= num <= x * SCALE + 32768);
        lemma_round_down(x * SCALE, num - x * SCALE, SCALE as int);
        lemma_mod_multiples_basic(x, SCALE as int);
        lemma_div_by_multiple(x, SCALE as int);
        assert(x * SCALE == SCALE as int * x) by (nonlinear_arith);
        assert(frag_cell(u, n) == x);
    }
}

/// Deliver a batch of completed fragments into a buffer: each in-range
/// index takes its value, later entries overriding earlier ones.
pub open spec fn apply_writes(buf: Seq<u32>, rs: Seq<(int, u32)>) -> Seq<u32>
    decreases rs.len(),
{
    if rs.len() == 0 {
        buf
    } else {
        let prev = apply_writes(buf, rs.drop_last());
        if 0 <= rs.last().0 < buf.len() {
            prev.update(rs.last().0, rs.last().1)
        } else {
            prev
        }
    }
}

/// No two entries write the same cell.
pub open spec fn writes_distinct(rs: Seq<(int, u32)>) -> bool {
    forall|i: int, j: int|
        0 <= i < j < rs.len() ==> (#[trigger] rs[i]).0 != (#[trigger] rs[j]).0
}

/// The last value written to cell `k`, if any.
pub open spec fn lookup_write(rs: Seq<(int, u32)>, k: int) -> Option<u32>
    decreases rs.len(),
{
    if rs.len() == 0 {
        None
    } else if rs.last().0 == k {
        Some(rs.last().1)
    } else {
        lookup_write(rs.drop_last(), k)
    }
}

/// A delivered buffer holds, at each cell, the last value written there.
pub proof fn lemma_apply_writes_char(buf: Seq<u32>, rs: Seq<(int, u32)>)
    ensures
        apply_writes(buf, rs).len() == buf.len(),
        forall|k: int|
            0 <= k < buf.len() ==> apply_writes(buf, rs)[k] == (match lookup_write(rs, k) {
                Some(v) => v,
                None => buf[k],
            }),
    decreases rs.len(),
{
    if rs.len() > 0 {
        lemma_apply_writes_char(buf, rs.drop_last());
    }
}

/// A prefix of a distinct batch is distinct.
proof fn lemma_distinct_prefix(rs: Seq<(int, u32)>)
    requires
        writes_distinct(rs),
        rs.len() > 0,
    ensures
        writes_distinct(rs.drop_last()),
{
}

/// For distinct batches, the last write to a cell is the only one, and it
/// is characterized by plain membership.
proof fn lemma_lookup_membership(rs: Seq<(int, u32)>, k: int)
    requires
        writes_distinct(rs),
    ensures
        match lookup_write(rs, k) {
            Some(v) => rs.contains((k, v)),
            None => forall|j: int| 0 <= j < rs.len() ==> (#[trigger] rs[j]).0 != k,
        },
        forall|v: u32| rs.contains((k, v)) ==> lookup_write(rs, k) == Some(v),
    decreases rs.len(),
{
    if rs.len() > 0 {
        lemma_distinct_prefix(rs);
        lemma_lookup_membership(rs.drop_last(), k);
        let last = rs.last();
        if last.0 == k {
            assert(rs[rs.len() - 1] == last);
            assert(rs.contains((k, last.1)));
            assert forall|v: u32| rs.contains((k, v)) implies lookup_write(rs, k) == Some(v) by {
                let j = choose|j: int| 0 <= j < rs.len() && rs[j] == (k, v);
                if j < rs.len() - 1 {
                    assert(rs[j].0 == k && rs[rs.len() - 1].0 == k);
                    assert(false);
                }
            }
        } else {
            assert forall|v: u32| rs.contains((k, v)) implies lookup_write(rs, k) == Some(v) by {
                let j = choose|j: int| 0 <= j < rs.len() && rs[j] == (k, v);
                assert(j < rs.len() - 1);
                assert(rs.drop_last()[j] == (k, v));
                assert(rs.drop_last().contains((k, v)));
            }
            match lookup_write(rs, k) {
                Some(v) => {
                    assert(rs.drop_last().contains((k, v)));
                    let j = choose|j: int|
                        0 <= j < rs.drop_last().len() && rs.drop_last()[j] == (k, v);
                    assert(rs[j] == (k, v));
                    assert(rs.contains((k, v)));
                },
                None => {
                    assert forall|j: int| 0 <= j < rs.len() implies (#[trigger] rs[j]).0 != k by {
                        if j < rs.len() - 1 {
                            assert(rs.drop_last()[j] == rs[j]);
                        }
                    }
                },
            }
        }
    }
}

/// Delivering the same set of per-cell results in any order fills the same
/// buffer: the framebuffer's contents do not depend on which worker
/// finished first.
pub proof fn lemma_writes_order_independent(
    buf: Seq<u32>,
    rs1: Seq<(int, u32)>,
    rs2: Seq<(int, u32)>,
)
    requires
        writes_distinct(rs1),
        writes_distinct(rs2),
        rs1.to_multiset() == rs2.to_multiset(),
    ensures
        apply_writes(buf, rs1) == apply_writes(buf, rs2),
{
    broadcast use vstd::seq_lib::group_to_multiset_ensures;

    lemma_apply_writes_char(buf, rs1);
    lemma_apply_writes_char(buf, rs2);
    assert forall|k: int| 0 <= k < buf.len() implies lookup_write(rs1, k) == lookup_write(
        rs2,
        k,
    ) by {
        lemma_lookup_membership(rs1, k);
        lemma_lookup_membership(rs2, k);
        match lookup_write(rs1, k) {
            Some(v) => {
                assert(rs1.contains((k, v)));
                assert(rs1.to_multiset().count((k, v)) > 0);
                assert(rs2.contains((k, v)));
            },
            None => {
                match lookup_write(rs2, k) {
                    Some(v) => {
                        assert(rs2.contains((k, v)));
                        assert(rs1.to_multiset().count((k, v)) > 0);
                        assert(rs1.contains((k, v)));
                        let j = choose|j: int| 0 <= j < rs1.len() && rs1[j] == (k, v);
                        assert(rs1[j].0 == k);
                        assert(false);
                    },
                    None => {
                    },
                }
            },
        }
    }
    assert(apply_writes(buf, rs1) =~= apply_writes(buf, rs2));
}

/// Whether `word` is a packed color that `func` may produce for `p`.
pub open spec fn shades_to<F: Fn(Point2D) -> ScreenSpaceColor>(
    func: F,
    p: Point2D,
    word: u32,
) -> bool {
    exists|c: ScreenSpaceColor|
        #[trigger] func.ensures((p,), c) && word == c.r * 0x100_0000 + c.g * 0x1_0000 + c.b
            * 0x100
}

/// The pixel buffer and its dimensions.
pub struct Framebuffer {
    buffer: Vec<u32>,
    width: usize,
    height: usize,
}

impl Framebuffer {
    /// The buffer contents, one packed color per cell, rows first.
    pub closed spec fn buf(self) -> Seq<u32> {
        self.buffer@
    }

    /// The width in cells.
    pub closed spec fn width_spec(self) -> int {
        self.width as int
    }

    /// The height in cells.
    pub closed spec fn height_spec(self) -> int {
        self.height as int
    }

    /// The buffer covers exactly the grid, and both dimensions leave the
    /// fragment rounding exact.
    pub closed spec fn wf(self) -> bool {
        &&& self.buffer@.len() == self.width * self.height
        &&& self.width <= 32768
        &&& self.height <= 32768
    }

    /// A black framebuffer of the given dimensions.  Both dimensions are
    /// capped so that fragment coordinates map to cells exactly.
    pub fn new(width: usize, height: usize) -> (r: Framebuffer)
        requires
            width <= 32768,
            height <= 32768,
        ensures
            r.wf(),
            r.width_spec() == width,
            r.height_spec() == height,
            r.buf().len() == width * height,
            forall|k: int| 0 <= k < r.buf().len() ==> r.buf()[k] == 0u32,
    {
        proof {
            assert(width * height <= 0x4000_0000) by (nonlinear_arith)
                requires
                    width <= 32768,
                    height <= 32768,
            ;
        }
        let total = width * height;
        let mut buffer: Vec<u32> = Vec::new();
        while buffer.len() < total
            invariant
                buffer@.len() <= total,
                forall|k: int| 0 <= k < buffer@.len() ==> buffer@[k] == 0u32,
            decreases total - buffer@.len(),
        {
            buffer.push(0);
        }
        Framebuffer { buffer, width, height }
    }

    /// Replace the whole contents with a prepared buffer of equal size.
    pub fn write(&mut self, other: &Vec<u32>)
        requires
            old(self).wf(),
            other@.len() == old(self).buf().len(),
        ensures
            final (self).wf(),
            final (self).width_spec() == old(self).width_spec(),
            final (self).height_spec() == old(self).height_spec(),
            final (self).buf() == other@,
    {
        let mut n: usize = 0;
        while n < other.len()
            invariant
                n <= other@.len(),
                other@.len() == self.buffer@.len(),
                self.width == old(self).width,
                self.height == old(self).height,
                old(self).wf(),
                self.buffer@.len() == old(self).buffer@.len(),
                forall|k: int| 0 <= k < n ==> self.buffer@[k] == other@[k],
            decreases other@.len() - n,
        {
            self.buffer.set(n, other[n]);
            n = n + 1;
        }
        proof {
            assert(self.buffer@ =~= other@);
        }
    }

    /// Write one fragment's value into the cell it owns, rounding to the
    /// nearest cell; fragments outside the grid are ignored.
    pub fn write_at(&mut self, point: &Point2D, value: u32)
        requires
            old(self).wf(),
        ensures
            final (self).wf(),
            final (self).width_spec() == old(self).width_spec(),
            final (self).height_spec() == old(self).height_spec(),
            (cell_ok(point.x@, old(self).width_spec()) && cell_ok(
                point.y@,
                old(self).height_spec(),
            )) ==> final (self).buf() == old(self).buf().update(
                frag_cell(point.y@, old(self).height_spec()) * old(self).width_spec() + frag_cell(
                    point.x@,
                    old(self).width_spec(),
                ),
                value,
            ),
            !(cell_ok(point.x@, old(self).width_spec()) && cell_ok(
                point.y@,
                old(self).height_spec(),
            )) ==> final (self).buf() == old(self).buf(),
    {
        if self.width == 0 || self.height == 0 {
            proof {
                if self.width == 0 {
                    assert(!cell_ok(point.x@, 0));
                } else {
                    assert(!cell_ok(point.y@, 0));
                }
            }
            return;
        }
        proof {
            crate::math::scalar::lemma_mul_abs_bound(
                point.x@,
                self.width - 1,
                0x8000_0000_0000_0000,
                32768,
            );
            crate::math::scalar::lemma_mul_abs_bound(
                point.y@,
                self.height - 1,
                0x8000_0000_0000_0000,
                32768,
            );
        }
        let numx: i128 = (point.x.raw as i128) * ((self.width - 1) as i128) + 32768;
        let numy: i128 = (point.y.raw as i128) * ((self.height - 1) as i128) + 32768;
        proof {
            lemma_euclid_matches(numx as int, point.x@, self.width as int);
            lemma_euclid_matches(numy as int, point.y@, self.height as int);
        }
        if numx < 0 || numy < 0 {
            return;
        }
        let cx = tdiv_i128(numx, SCALE as i128);
        let cy = tdiv_i128(numy, SCALE as i128);
        if cx >= self.width as i128 || cy >= self.height as i128 {
            return;
        }
        proof {
            crate::math::scalar::lemma_tdiv_bounds(numx as int, SCALE as int);
            crate::math::scalar::lemma_tdiv_bounds(numy as int, SCALE as int);
            assert((cy as int) * (self.width as int) + (cx as int) < (self.width as int) * (
            self.height as int)) by (nonlinear_arith)
                requires
                    0 <= cy as int,
                    cy as int <= self.height - 1,
                    0 <= cx as int,
                    cx as int <= self.width - 1,
                    self.width >= 1,
                    self.height >= 1,
            ;
            assert((self.width as int) * (self.height as int) <= 0x4000_0000) by (nonlinear_arith)
                requires
                    self.width <= 32768,
                    self.height <= 32768,
            ;
        }
        let idx = (cy as usize) * self.width + (cx as usize);
        self.buffer.set(idx, value);
    }

    /// One fragment per cell, in row order; `write_at` routes each one
    /// back to exactly the cell it came from.
    pub fn points(&self) -> (ps: Vec<Point2D>)
        requires
            self.wf(),
        ensures
            ps@.len() == self.buf().len(),
            forall|n: int|
                0 <= n < ps@.len() ==> ps@[n] == frag_point(
                    n,
                    self.width_spec(),
                    self.height_spec(),
                ),
    {
        let w = self.width;
        let h = self.height;
        let total = self.buffer.len();
        let mut ps: Vec<Point2D> = Vec::new();
        while ps.len() < total
            invariant
                self.wf(),
                w == self.width,
                h == self.height,
                total == self.buffer@.len(),
                ps@.len() <= total,
                forall|n: int|
                    0 <= n < ps@.len() ==> ps@[n] == frag_point(n, w as int, h as int),
            decreases total - ps@.len(),
        {
            let n = ps.len();
            proof {
                if w == 0 {
                    assert(self.width * self.height == 0) by (nonlinear_arith)
                        requires
                            self.width == 0,
                    ;
                }
            }
            let x = n % w;
            let y = n / w;
            proof {
                assert(n % w == (n as int) % (w as int));
                assert(n / w == (n as int) / (w as int));
                vstd::arithmetic::div_mod::lemma_mod_bound(n as int, w as int);
                assert((n as int) < (w as int) * (h as int)) by (nonlinear_arith)
                    requires
                        n < self.buffer@.len(),
                        self.buffer@.len() == self.width * self.height,
                        w == self.width,
                        h == self.height,
                ;
                vstd::arithmetic::div_mod::lemma_multiply_divide_lt(n as int, w as int, h as int);
            }
            let ux: i64 = if w <= 1 {
                0
            } else {
                proof {
                    vstd::arithmetic::div_mod::lemma_div_pos_is_pos(
                        (x as int) * (SCALE as int),
                        w - 1,
                    );
                    vstd::arithmetic::div_mod::lemma_div_is_ordered(
                        (x as int) * (SCALE as int),
                        0x8000_0000_0000,
                        w - 1,
                    );
                    vstd::arithmetic::div_mod::lemma_div_nonincreasing(
                        (x as int) * (SCALE as int),
                        w - 1,
                    );
                }
                ((x as i64) * SCALE) / ((w - 1) as i64)
            };
            let uy: i64 = if h <= 1 {
                0
            } else {
                proof {
                    vstd::arithmetic::div_mod::lemma_div_pos_is_pos(
                        (y as int) * (SCALE as int),
                        h - 1,
                    );
                    vstd::arithmetic::div_mod::lemma_div_nonincreasing(
                        (y as int) * (SCALE as int),
                        h - 1,
                    );
                }
                ((y as i64) * SCALE) / ((h - 1) as i64)
            };
            ps.push(Point2D { x: Scalar { raw: ux }, y: Scalar { raw: uy } });
            proof {
                assert(y as int <= n as int);
                assert(ps@[ps@.len() - 1] == frag_point(n as int, w as int, h as int));
            }
        }
        ps
    }

    /// Shade every cell through `func`, feeding it each cell's fragment.
    pub fn fill<F: Fn(Point2D) -> ScreenSpaceColor>(&mut self, func: F)
        requires
            old(self).wf(),
            forall|p: Point2D| #[trigger] func.requires((p,)),
        ensures
            final (self).wf(),
            final (self).width_spec() == old(self).width_spec(),
            final (self).height_spec() == old(self).height_spec(),
            final (self).buf().len() == old(self).buf().len(),
            forall|n: int|
                0 <= n < final (self).buf().len() ==> #[trigger] shades_to(
                    func,
                    frag_point(n, old(self).width_spec(), old(self).height_spec()),
                    final (self).buf()[n],
                ),
    {
        let pts = self.points();
        let mut n: usize = 0;
        while n < self.buffer.len()
            invariant
                self.wf(),
                self.width == old(self).width,
                self.height == old(self).height,
                self.buffer@.len() == old(self).buffer@.len(),
                pts@.len() == self.buffer@.len(),
                forall|k: int|
                    0 <= k < pts@.len() ==> pts@[k] == frag_point(
                        k,
                        old(self).width_spec(),
                        old(self).height_spec(),
                    ),
                forall|p: Point2D| #[trigger] func.requires((p,)),
                n <= self.buffer@.len(),
                forall|k: int|
                    0 <= k < n ==> #[trigger] shades_to(
                        func,
                        frag_point(k, old(self).width_spec(), old(self).height_spec()),
                        self.buffer@[k],
                    ),
            decreases self.buffer@.len() - n,
        {
            let p = pts[n];
            let c = func(p);
            let word = c.as_rgb_u32();
            self.buffer.set(n, word);
            proof {
                assert(shades_to(
                    func,
                    frag_point(n as int, old(self).width_spec(), old(self).height_spec()),
                    self.buffer@[n as int],
                ));
            }
            n = n + 1;
        }
    }

    /// The raw packed buffer, for presentation.
    pub fn raw_buffer(&self) -> (r: &Vec<u32>)
        ensures
            r@ == self.buf(),
    {
        &self.buffer
    }

    /// The width in cells.
    pub fn width(&self) -> (w: usize)
        ensures
            w == self.width_spec(),
    {
        self.width
    }

    /// The height in cells.
    pub fn height(&self) -> (h: usize)
        ensures
            h == self.height_spec(),
    {
        self.height
    }
}

/// The wide rounding numerator matches the specification's cell formula.
proof fn lemma_euclid_matches(num: int, u: int, n: int)
    requires
        n >= 1,
        num == u * (n - 1) + 32768,
    ensures
        num >= 0 ==> tdiv(num, SCALE as int) == frag_cell(u, n),
        num < 0 ==> !cell_ok(u, n),
{
    if num >= 0 {
    } else {
        lemma_fundamental_div_mod(num, SCALE as int);
        lemma_mod_bound(num, SCALE as int);
        assert(num / (SCALE as int) < 0) by (nonlinear_arith)
            requires
                num == (SCALE as int) * (num / (SCALE as int)) + num % (SCALE as int),
                0 <= num % (SCALE as int) < SCALE as int,
                num < 0,
                SCALE == 65536,
        ;
    }
}

} // verus!
