use norays::color::screen_space_color::ScreenSpaceColor;
use norays::drawing::color::unit_to_u8;
use norays::drawing::color::Color;
use norays::drawing::framebuffer::Framebuffer;
use norays::math::point2d::Point2D;
use norays::math::scalar::Scalar;
use norays::math::vector::Vector;

#[test]
fn unit_channels_map_to_display_bytes() {
    assert_eq!(unit_to_u8(Scalar::from_int(-1)), 0);
    assert_eq!(unit_to_u8(Scalar::from_int(0)), 128);
    assert_eq!(unit_to_u8(Scalar::from_int(1)), 255);
    // halfway between the middle and the top: round((0.75) * 255)
    assert_eq!(unit_to_u8(Scalar::from_raw(32768)), 191);
    // out-of-range values saturate
    assert_eq!(unit_to_u8(Scalar::from_int(-7)), 0);
    assert_eq!(unit_to_u8(Scalar::from_int(7)), 255);
}

#[test]
fn packed_words_place_channels_high_to_low() {
    assert_eq!(Color::rgb(1, 2, 3).as_rgb_u32(), 0x01020300);
    assert_eq!(ScreenSpaceColor::rgb(0xAA, 0xBB, 0xCC).as_rgb_u32(), 0xAABBCC00);
}

#[test]
fn vector_channels_convert_independently() {
    let v = Vector::new(Scalar::from_int(-1), Scalar::from_int(0), Scalar::from_int(1));
    let c = ScreenSpaceColor::from_vector(&v);
    assert_eq!((c.r, c.g, c.b, c.a), (0, 128, 255, 255));
}

#[test]
fn framebuffer_cells_roundtrip_through_fragments() {
    let mut fb = Framebuffer::new(3, 2);
    assert_eq!(fb.width(), 3);
    assert_eq!(fb.height(), 2);
    let pts = fb.points();
    assert_eq!(pts.len(), 6);
    for (n, p) in pts.iter().enumerate() {
        fb.write_at(p, 100 + n as u32);
    }
    for n in 0..6 {
        assert_eq!(fb.raw_buffer()[n], 100 + n as u32);
    }
}

#[test]
fn out_of_range_fragments_are_ignored() {
    let mut fb = Framebuffer::new(2, 2);
    fb.write_at(&Point2D::new(Scalar::from_int(5), Scalar::zero()), 7);
    fb.write_at(&Point2D::new(Scalar::zero(), Scalar::from_int(-3)), 7);
    for n in 0..4 {
        assert_eq!(fb.raw_buffer()[n], 0);
    }
}

#[test]
fn fill_shades_every_cell() {
    let mut fb = Framebuffer::new(4, 4);
    fb.fill(|_p| ScreenSpaceColor::rgb(1, 2, 3));
    for n in 0..16 {
        assert_eq!(fb.raw_buffer()[n], 0x01020300);
    }
}

#[test]
fn write_replaces_the_whole_buffer() {
    let mut fb = Framebuffer::new(2, 2);
    let fresh = vec![9u32, 8, 7, 6];
    fb.write(&fresh);
    assert_eq!(fb.raw_buffer().as_slice(), fresh.as_slice());
}
