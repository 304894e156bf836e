//! Validating parsers for two kinds of codes: `#rrggbb` hex colours and
//! ISBN-13 book numbers with their check digit.
pub mod checksum;
pub mod color;
pub mod isbn;

pub use color::{InvalidDigit, Rgb, RgbError};
pub use isbn::{Isbn, IsbnError};
