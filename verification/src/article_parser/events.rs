//! The markup event source: a thin trusted boundary around the `quick_xml`
//! reader.  The whole event stream of a byte slice is a function of those
//! bytes alone; [`events_of`] names it, [`read_all_events`] produces it, and
//! the verified page scanner consumes it.
//!
//! Event kinds the scanner does not read (CDATA, comments, declarations,
//! processing instructions and doctype data) are folded into
//! [`RawEvent::Other`].  A fault from the reader (truncated or malformed
//! markup) is treated as end of the input, so that a damaged record ends the
//! stream instead of ending the run: parsing is best effort, never fatal.

use vstd::prelude::*;

verus! {

use quick_xml::events::Event;
use self::RawEvent::{Empty, End, EndOfInput, Other, Reference, Start, Text};

/// One markup event, reduced to plain values.
#[derive(Debug, PartialEq, Clone)]
pub enum RawEvent {
    /// An opening tag, by its name bytes.
    Start { name: Vec<u8> },
    /// A self-closing tag, by its name bytes, with its attributes as raw
    /// key and value bytes in document order.
    Empty { name: Vec<u8>, attrs: Vec<(Vec<u8>, Vec<u8>)> },
    /// A fragment of character data between tags, still escaped.
    Text { raw: Vec<u8> },
    /// A general or character reference (`&...;`) inside character data, by
    /// the name bytes between `&` and `;`.
    Reference { name: Vec<u8> },
    /// A closing tag, by its name bytes.
    End { name: Vec<u8> },
    /// End of the input.
    EndOfInput,
    /// Any other kind of event.
    Other,
}

/// One event together with the byte offset the reader had consumed once the
/// event was produced.
#[derive(Debug, PartialEq, Clone)]
pub struct LocatedEvent {
    pub offset: u64,
    pub event: RawEvent,
}

/// A fault from unescaping a text fragment: a malformed escape sequence or
/// text that is not valid UTF-8.
#[derive(Debug)]
pub struct XmlFault {
    pub message: String,
}

#[verifier::external_type_specification]
#[verifier::external_body]
#[verifier::reject_recursive_types(R)]
pub struct ExXmlReader<R>(quick_xml::reader::Reader<R>);

/// The event stream that the markup reader yields on the given bytes: each
/// event with the consumed byte offset after it, ending with the first
/// [`RawEvent::EndOfInput`].  The reader runs over the bytes alone, so the
/// stream is a function of them.
pub uninterp spec fn events_of(content: Seq<u8>) -> Seq<LocatedEvent>;

/// Relies on `Reader::from_reader`, `Reader::buffer_position` and (through
/// [`next_raw_event`]) `Reader::read_event_into`: the reader's whole event
/// stream, located by consumed offset.  Unmatched end tags are tolerated so
/// that a parse starting inside a page record can realign at the next
/// page-start marker.
#[verifier::external_body]
pub(crate) fn read_all_events(content: &[u8]) -> (r: Vec<LocatedEvent>)
    ensures
        r@ == events_of(content@),
{
    let mut reader = quick_xml::reader::Reader::from_reader(content);
    reader.config_mut().allow_unmatched_ends = true;
    let mut buf: Vec<u8> = Vec::new();
    let mut out: Vec<LocatedEvent> = Vec::new();
    loop {
        let event = next_raw_event(&mut reader, &mut buf);
        let done = matches!(event, RawEvent::EndOfInput);
        out.push(LocatedEvent { offset: reader.buffer_position(), event });
        if done {
            return out;
        }
    }
}

/// Relies on `Reader::read_event_into`: the next event of the input, with
/// names, attributes, text and reference names copied out as plain bytes.  A
/// reader fault counts as end of the input (a truncated record is not
/// fatal).
#[verifier::external_body]
fn next_raw_event(r: &mut quick_xml::reader::Reader<&[u8]>, buf: &mut Vec<u8>) -> RawEvent {
    buf.clear();
    match r.read_event_into(buf) {
        Err(_) => EndOfInput,
        Ok(Event::Start(e)) => Start { name: e.name().0.as_bytes().to_vec() },
        Ok(Event::Empty(e)) => Empty {
            name: e.name().0.as_bytes().to_vec(),
            attrs: attr_pairs(&e),
        },
        Ok(Event::Text(e)) => Text { raw: e.as_bytes().to_vec() },
        Ok(Event::GeneralRef(e)) => Reference { name: e.as_bytes().to_vec() },
        Ok(Event::End(e)) => End { name: e.name().0.as_bytes().to_vec() },
        Ok(Event::Eof) => EndOfInput,
        Ok(_) => Other,
    }
}

#[verifier::external_type_specification]
#[verifier::external_body]
pub struct ExBytesStart<'a>(quick_xml::events::BytesStart<'a>);

/// Relies on `BytesStart::attributes`: the well-formed attributes of the
/// element, as raw key and value bytes, in document order; attributes the
/// reader cannot parse are skipped.
#[verifier::external_body]
fn attr_pairs(e: &quick_xml::events::BytesStart) -> Vec<(Vec<u8>, Vec<u8>)> {
    e.attributes().filter_map(|a| a.ok()).map(
        |a| (a.key.0.as_bytes().to_vec(), a.value.as_bytes().to_vec()),
    ).collect()
}

/// What unescaping returns on the text decoded from the given bytes: the
/// unescaped text as UTF-8 bytes, or nothing when the bytes are not valid
/// UTF-8 or an escape sequence is malformed.
pub uninterp spec fn unescaped_of(raw: Seq<u8>) -> Option<Seq<u8>>;

/// Relies on `std::str::from_utf8` (decoding the argument) and
/// `quick_xml::escape::unescape`: the result depends on the bytes alone, and
/// empty input unescapes to empty output.
#[verifier::external_body]
pub(crate) fn unescape_text(raw: &Vec<u8>) -> (res: Result<Vec<u8>, XmlFault>)
    ensures
        res matches Ok(b) ==> unescaped_of(raw@) == Some(b@) && (raw@.len() == 0 ==> b@.len()
            == 0),
        res is Err ==> unescaped_of(raw@) is None && raw@.len() != 0,
{
    let s = match core::str::from_utf8(raw) {
        Ok(s) => s,
        Err(e) => return Err(XmlFault { message: format!("{}", e) }),
    };
    match quick_xml::escape::unescape(s) {
        Ok(t) => Ok(t.into_owned().into_bytes()),
        Err(e) => Err(XmlFault { message: format!("{}", e) }),
    }
}

/// The characters that lossy UTF-8 decoding reads out of the given bytes.
pub uninterp spec fn lossy_chars_of(raw: Seq<u8>) -> Seq<char>;

/// Relies on `String::from_utf8_lossy`: the result depends on the bytes
/// alone; ASCII bytes decode to exactly their own characters, so in
/// particular empty input decodes to the empty string.
#[verifier::external_body]
pub(crate) fn bytes_to_string(raw: &Vec<u8>) -> (res: String)
    ensures
        res@ == lossy_chars_of(raw@),
        res@ == (if forall|i: int| 0 <= i < raw@.len() ==> raw@[i] < 128 {
            Seq::new(raw@.len(), |i: int| raw@[i] as char)
        } else {
            lossy_chars_of(raw@)
        }),
{
    String::from_utf8_lossy(raw).into_owned()
}

} // verus!
