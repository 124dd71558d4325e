//! The event stream of a mapper document, read with quick_xml.
use vstd::prelude::*;
use quick_xml::events::{BytesStart, Event};
use quick_xml::Reader;

verus! {

/// A start or empty-element tag: its name and its attributes, raw and in order.
#[derive(Debug)]
pub struct Tag {
    pub name: String,
    pub attrs: Vec<(String, String)>,
}

/// One event of a document. Text comes trimmed, and whitespace-only text
/// does not come at all.
#[derive(Debug)]
pub enum XmlEvent {
    Start(Tag),
    Empty(Tag),
    End(String),
    Text(String),
    /// Comments, CDATA, declarations, processing instructions, doctype.
    Other,
    Eof,
}

/// Why a document could not be parsed.
#[derive(Debug)]
pub enum ParseError {
    MalformedXml(String),
    /// The element, and the attribute it lacks.
    MissingAttribute(String, String),
    EncodingError(String),
}

/// quick_xml's `Reader`, declared so that it can stand in signatures; opaque.
#[verifier::external_type_specification]
#[verifier::external_body]
#[verifier::reject_recursive_types(R)]
pub struct ExReader<R>(Reader<R>);

/// quick_xml's `BytesStart` (a start tag), declared so that it can stand in
/// signatures; opaque.
#[verifier::external_type_specification]
#[verifier::external_body]
pub struct ExBytesStart<'a>(BytesStart<'a>);

/// Relies on `std::str::from_utf8`: the bytes as text, or why they are not UTF-8.
#[verifier::external_body]
fn utf8_text(b: &[u8]) -> (r: Result<String, ParseError>)
    ensures
        r matches Err(ParseError::EncodingError(_)) || r is Ok,
{
    match std::str::from_utf8(b) {
        Ok(s) => Ok(s.to_string()),
        Err(e) => Err(ParseError::EncodingError(e.to_string())),
    }
}

/// Relies on `BytesStart::name` and `BytesStart::attributes`: the tag's name
/// and its attributes in document order.
#[verifier::external_body]
fn tag_of(e: &BytesStart) -> (r: Result<Tag, ParseError>) {
    let mut attrs = Vec::new();
    for a in e.attributes() {
        let a = a.map_err(|x| ParseError::MalformedXml(x.to_string()))?;
        attrs.push((utf8_text(a.key.as_ref())?, utf8_text(&a.value)?));
    }
    Ok(Tag { name: utf8_text(e.name().as_ref())?, attrs })
}

/// Relies on `Reader::from_reader` and `Reader::trim_text`: a reader over
/// `xml` that trims text and drops whitespace-only text.
#[verifier::external_body]
fn open_reader(xml: &[u8]) -> Reader<&[u8]> {
    let mut r = Reader::from_reader(xml);
    r.trim_text(true);
    r
}

/// Relies on `Reader::read_event_into`: the next event of the document.
#[verifier::external_body]
fn next_event(r: &mut Reader<&[u8]>, buf: &mut Vec<u8>) -> (e: Result<XmlEvent, ParseError>) {
    buf.clear();
    match r.read_event_into(buf) {
        Ok(Event::Start(e)) => tag_of(&e).map(XmlEvent::Start),
        Ok(Event::Empty(e)) => tag_of(&e).map(XmlEvent::Empty),
        Ok(Event::End(e)) => utf8_text(e.name().as_ref()).map(XmlEvent::End),
        Ok(Event::Text(t)) => utf8_text(&t).map(XmlEvent::Text),
        Ok(Event::Eof) => Ok(XmlEvent::Eof),
        Ok(_) => Ok(XmlEvent::Other),
        Err(e) => Err(ParseError::MalformedXml(e.to_string())),
    }
}

/// The events quick_xml reads from the document `xml`, up to and with the
/// first `Eof`, or nothing when it reports an error (malformed XML, or text
/// that is not UTF-8).
pub uninterp spec fn document_events(xml: Seq<u8>) -> Option<Seq<XmlEvent>>;

/// Relies on `Reader::read_event_into` (through `open_reader` and
/// `next_event`): the events of the document up to and with the first `Eof`,
/// or the first error; they depend on the bytes alone.
#[verifier::external_body]
fn xml_events(xml: &[u8]) -> (r: Result<Vec<XmlEvent>, ParseError>)
    ensures
        match r {
            Ok(v) => document_events(xml@) == Some(v@),
            Err(x) => document_events(xml@) is None && (x is MalformedXml || x is EncodingError),
        },
        r matches Ok(v) ==> v.len() >= 1 && v@.last() is Eof && forall|i: int|
            0 <= i < v.len() - 1 ==> !(#[trigger] v@[i] is Eof),
{
    let mut reader = open_reader(xml);
    let mut buf = Vec::new();
    let mut out = Vec::new();
    loop {
        let e = next_event(&mut reader, &mut buf)?;
        let end = matches!(e, XmlEvent::Eof);
        out.push(e);
        if end {
            return Ok(out);
        }
    }
}

/// The events of a document, ending with the one `Eof` (see `document_events`).
pub fn read_events(xml: &[u8]) -> (r: Result<Vec<XmlEvent>, ParseError>)
    ensures
        match document_events(xml@) {
            Some(evs) => r matches Ok(v) && v@ == evs,
            None => r matches Err(x) && (x is MalformedXml || x is EncodingError),
        },
        r matches Ok(v) ==> v.len() >= 1 && v@.last() is Eof && forall|i: int|
            0 <= i < v.len() - 1 ==> !(#[trigger] v@[i] is Eof),
{
    xml_events(xml)
}

} // verus!
