//! A four-part version number (`global.major.minor.patch`, sixteen bits each)
//! with a packed 64-bit form, a dotted text form and a total order.

pub mod decimal;
pub mod text;
pub mod version;

pub use text::ParseError;
pub use version::Version;
