//! A verified decoder for QOI ("Quite OK Image") streams, together with the
//! RGB565 framebuffer bridge and the slideshow timing rules of a small
//! display demo.
pub mod decoder;
pub mod framebuffer;
pub mod header;
pub mod laws;
pub mod pixel;
pub mod schedule;

pub use decoder::QoiDecoder;
pub use framebuffer::{decode_qoi_image, FrameError, FrameInfo};
pub use header::{parse_header, Channels, ColorSpace, HeaderError, QoiHeader, HEADER_LEN};
pub use pixel::{hash, rgb565, rgb565_be_bytes, Pixel};
pub use schedule::{wait_before_draw, Slideshow, INTERVAL_MS};
