//! Turning printed bytes into text: the two character decoders that the
//! parser hands text spans to.
use vstd::prelude::*;

verus! {

/// What `encoding_rs::WINDOWS_1252.decode` returns (as characters) for the
/// given bytes. That function decodes with BOM sniffing, so a UTF-8 or
/// UTF-16 byte-order mark switches the decoder, and it replaces malformed
/// sequences; its result is a function of the bytes alone.
pub uninterp spec fn windows_1252_decode(bytes: Seq<u8>) -> Seq<char>;

/// What `String::from_utf8_lossy` returns (as characters) for the given
/// bytes: the UTF-8 decoding of the bytes with every invalid sequence
/// replaced by U+FFFD; a function of the bytes alone.
pub uninterp spec fn utf8_lossy_decode(bytes: Seq<u8>) -> Seq<char>;

/// The bytes are exactly a byte-order mark: that of UTF-8 (`EF BB BF`),
/// UTF-16LE (`FF FE`) or UTF-16BE (`FE FF`).
pub open spec fn is_byte_order_mark(bytes: Seq<u8>) -> bool {
    ||| bytes == seq![0xEFu8, 0xBBu8, 0xBFu8]
    ||| bytes == seq![0xFFu8, 0xFEu8]
    ||| bytes == seq![0xFEu8, 0xFFu8]
}

/// Calls `encoding_rs::WINDOWS_1252.decode` and copies the result into a
/// `String`. Trusted: the text equals `windows_1252_decode` of the bytes;
/// and bytes that are not empty and not a lone byte-order mark give text
/// that is not empty (a byte-order mark only selects the decoder and is
/// dropped; after it, every byte, or every malformed sequence, gives at
/// least one character). Nothing else is claimed about the characters.
/// The length bound keeps the size of the decoded UTF-8 (at most three bytes
/// per input byte) far from the overflow on which encoding_rs panics.
#[verifier::external_body]
pub(crate) fn decode_windows_1252(bytes: &[u8]) -> (text: String)
    requires
        bytes@.len() <= isize::MAX / 4,
    ensures
        text@ == windows_1252_decode(bytes@),
        bytes@.len() > 0 && !is_byte_order_mark(bytes@) ==> text@.len() > 0,
{
    let (decoded, _, _) = encoding_rs::WINDOWS_1252.decode(bytes);
    decoded.into_owned()
}

/// Calls `String::from_utf8_lossy` and copies the result into a `String`.
/// Trusted: the text equals `utf8_lossy_decode` of the bytes; and bytes
/// that are not empty give text that is not empty (every valid sequence
/// gives its character and every invalid one U+FFFD). Nothing else is
/// claimed about the characters.
/// The length bound keeps the decoded text (at most three bytes per input
/// byte) within what a `String` can hold.
#[verifier::external_body]
pub(crate) fn decode_utf8_lossy(bytes: &[u8]) -> (text: String)
    requires
        bytes@.len() <= isize::MAX / 4,
    ensures
        text@ == utf8_lossy_decode(bytes@),
        bytes@.len() > 0 ==> text@.len() > 0,
{
    String::from_utf8_lossy(bytes).into_owned()
}

} // verus!
