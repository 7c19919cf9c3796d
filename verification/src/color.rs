//! Color spaces used around the renderer core.

pub mod hdr_color;
pub mod screen_space_color;

pub use hdr_color::HdrColor;
pub use screen_space_color::ScreenSpaceColor;
