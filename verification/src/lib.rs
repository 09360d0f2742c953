//! Conversion between plain text and escaped code point notation.
//!
//! Encoding writes every character as `\u` followed by its code point in
//! upper-case hexadecimal, at least four digits wide. Decoding replaces every
//! token of the form `\u{XXXX}` (four hexadecimal digits of either case) by
//! the character with that code point and leaves all other text as it is.

pub mod text;
pub mod hex;
pub mod matcher;
pub mod encode;
pub mod decode;
pub mod command;

pub use command::{respond, select, Command};
pub use decode::{replace_tokens, unicode_to_text, unicode_to_text_matching, DecodeError};
pub use encode::text_to_unicode;
