//! An earlier layout of the XFBIN structures, whose chunks carry tagged
//! payloads.

pub mod reader;
pub mod xfbin;
