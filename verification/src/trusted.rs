//! What the library takes on trust: the decoder of `encoding_rs`, and one
//! method of `String` for which vstd has no contract. Nothing in this file is
//! proved.

use vstd::prelude::*;

verus! {

/// The text that `encoding_rs` decodes a run of Windows-1252 bytes to. The
/// library says nothing about which character a byte becomes.
pub uninterp spec fn windows_1252_text(bytes: Seq<u8>) -> Seq<char>;

/// Calls `encoding_rs::Encoding::decode_with_bom_removal` on
/// `encoding_rs::WINDOWS_1252` and hands back the text as an owned string.
/// The contract gives the text its name and claims no more: that the decoder
/// returns the same text for the same bytes. It leaves out the inputs for
/// which the decoder cannot compute the size of its output buffer, three
/// bytes for each byte of input, and panics.
#[verifier::external_body]
pub(crate) fn decode_windows_1252(bytes: &[u8]) -> (text: String)
    requires
        bytes@.len() * 3 <= isize::MAX,
    ensures
        text@ == windows_1252_text(bytes@),
{
    let (text, _) = encoding_rs::WINDOWS_1252.decode_with_bom_removal(bytes);
    text.into_owned()
}

/// `String::push` of the standard library: the contract claims that the
/// character is appended, and that what was there stays.
pub assume_specification[ String::push ](s: &mut String, c: char)
    ensures
        final(s)@ == old(s)@.push(c),
;

} // verus!
