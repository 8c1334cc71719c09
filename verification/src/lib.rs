//! Parsing of textual path selectors (`.foo[3]["a.b"][1:5]`) into ordered
//! sequences of navigation segments, together with the format-conversion
//! surface that the selectors are meant to serve.

pub mod cli;
pub mod codec;
pub mod grammar;
pub mod laws;
pub mod select;
