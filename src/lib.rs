//! Hexadecimal and ASCII dumps of byte sources, in the style of `hexdump`
//! and `xxd`, with verified column layout.
pub mod dumper;
pub mod laws;
pub mod layout;
mod text;

pub use dumper::{Dumper, InvalidConfiguration};
