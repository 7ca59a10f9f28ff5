//! XFBIN structures whose chunks carry their type name.

pub mod structure;
pub mod xfbin_reader;
