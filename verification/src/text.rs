//! Turning the raw bytes of a null-terminated name into text.

use vstd::prelude::*;
use vstd::utf8::{decode_utf8, valid_utf8};

verus! {

/// The text that `binrw::NullString`'s `Display` writes for `bytes`.
pub uninterp spec fn null_string_text(bytes: Seq<u8>) -> Seq<char>;

/// Calls `ToString::to_string` on a `binrw::NullString` holding a copy of `bytes`.
///
/// Trusted: the text is `null_string_text(bytes)`; where the bytes are valid
/// UTF-8 it is their decoding (binrw's `display_utf8` writes the chars of
/// `core::str::from_utf8` when that succeeds), and where they are not it
/// holds U+FFFD (`display_utf8` writes `char::REPLACEMENT_CHARACTER` for each
/// invalid sequence). Which text the valid parts around the invalid
/// sequences give is left to the name.
#[verifier::external_body]
pub fn null_string_to_string(bytes: &Vec<u8>) -> (s: String)
    ensures
        s@ == null_string_text(bytes@),
        valid_utf8(bytes@) ==> s@ == decode_utf8(bytes@),
        !valid_utf8(bytes@) ==> s@.contains('\u{FFFD}'),
{
    binrw::NullString(bytes.clone()).to_string()
}

} // verus!
