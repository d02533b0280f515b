pub mod field;
pub mod parse;
pub mod text;

pub use field::{Field, Pixel};
pub use parse::{parse_into_field, ParseError};
