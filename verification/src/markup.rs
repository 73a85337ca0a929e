//! The text of an XML event: bytes in UTF-8, with XML's escapes in them.
use quick_xml::escape::EscapeError;
use vstd::prelude::*;
use vstd::utf8::{decode_utf8, valid_utf8};

verus! {

#[verifier::external_type_specification]
#[verifier::external_body]
pub struct ExEscapeError(quick_xml::escape::EscapeError);

/// What `quick_xml::escape::unescape` makes of a text: the text with its escapes replaced, or
/// nothing where it holds an escape that is none.
pub uninterp spec fn unescaped(raw: Seq<char>) -> Option<Seq<char>>;

/// `quick_xml::escape::unescape` replaces the XML escapes of a text, or fails at one that it does
/// not know or that does not end. A text without an ampersand has no escapes and stays as it is.
#[verifier::external_body]
fn unescape(raw: &str) -> (text: Result<String, EscapeError>)
    ensures
        match text {
            Ok(text) => unescaped(raw@) == Some(text@),
            Err(_) => unescaped(raw@) is None,
        },
        !raw@.contains('&') ==> text is Ok && text->Ok_0@ == raw@,
{
    match quick_xml::escape::unescape(raw) {
        Ok(text) => Ok(text.into_owned()),
        Err(error) => Err(error),
    }
}

/// `std::str::from_utf8` gives the text whose UTF-8 encoding the bytes are, and fails exactly
/// where they are the encoding of none.
#[verifier::external_body]
fn from_utf8(bytes: &[u8]) -> (text: Option<&str>)
    ensures
        match text {
            Some(text) => valid_utf8(bytes@) && text@ == decode_utf8(bytes@),
            None => !valid_utf8(bytes@),
        },
{
    match std::str::from_utf8(bytes) {
        Ok(text) => Some(text),
        Err(_) => None,
    }
}

/// The text that the bytes of an event stand for.
pub open spec fn event_text(raw: Seq<u8>) -> Option<Seq<char>> {
    if valid_utf8(raw) {
        unescaped(decode_utf8(raw))
    } else {
        None
    }
}

/// Decodes and unescapes the bytes of an event.
pub fn read_text(raw: &Vec<u8>) -> (text: Option<String>)
    ensures
        match text {
            Some(text) => event_text(raw@) == Some(text@),
            None => event_text(raw@) is None,
        },
        valid_utf8(raw@) && !decode_utf8(raw@).contains('&') ==> text is Some && text->Some_0@
            == decode_utf8(raw@),
{
    match from_utf8(raw.as_slice()) {
        None => None,
        Some(escaped) => match unescape(escaped) {
            Ok(text) => Some(text),
            Err(_) => None,
        },
    }
}

/// Bytes that are no UTF-8 have no text; others have that of the characters they encode, with the
/// escapes replaced.
pub proof fn law_event_text(raw: Seq<u8>)
    ensures
        !valid_utf8(raw) ==> event_text(raw) is None,
        valid_utf8(raw) ==> event_text(raw) == unescaped(decode_utf8(raw)),
{
}

} // verus!
