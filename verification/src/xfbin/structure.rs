//! The structures of this layout.

pub mod xfbin;
