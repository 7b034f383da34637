//! A driver for ST7789 TFT displays on an SPI bus.
//!
//! Every operation of the driver records, in a [`Transcript`], the exact
//! sequence of bus steps (pin levels, SPI writes and delays) that the panel
//! must receive. The driver itself is pure and verified; performing the
//! steps on a board is left to the caller, who stops at the first SPI write
//! that fails.
pub mod bus;
pub mod command;
pub mod display;
pub mod laws;
pub mod line;
pub mod pins;
pub mod protocol;
pub mod text;
pub mod wire;

pub use bus::{BusOp, Transcript};
pub use command::{ColorMode, Command, Rotation};
pub use display::{ST7789Display, BUFFER_SIZE};
pub use pins::{NoPin, OptionalOutput};
pub use text::Glyph;
