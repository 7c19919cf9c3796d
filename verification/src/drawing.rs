//! Drawing: the pixel framebuffer and display colors.

pub mod color;
pub mod framebuffer;

pub use color::Color;
pub use framebuffer::Framebuffer;
