//! Parsing of textual color notations and conversion between color spaces.

pub mod color;
pub mod command;
pub mod convert;
pub mod error;
pub mod grammar;
pub mod laws;
pub mod text;

pub use color::{Color, Hsl, Hsv, Rgb};
pub use command::{Command, Format};
pub use convert::Unsupported;
pub use error::CustomError;
pub use grammar::parse_color;
