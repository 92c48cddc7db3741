//! Raw embedded elements inside markup passages.
//!
//! Conditional regions are written as pseudo-elements `x-<release>` /
//! `o-<release>` in literal markup; quick-xml parses such a passage into a
//! flat event list. The parse result is named by [`embed_events_of`]; a
//! passage quick-xml cannot parse at all yields `None`.

use vstd::prelude::*;

verus! {

/// One event of an embedded markup passage.
#[derive(Debug, Clone)]
pub enum EmbedEvent {
    /// An opening tag with its attributes in order.
    Start { name: String, attrs: Vec<(String, String)> },
    /// A closing tag.
    End { name: String },
    /// A text run, kept in its escaped written form.
    Text(String),
    /// A self-closing tag; carried through and ignored by the renderer.
    Empty,
    /// Any other construct (comment, declaration, processing instruction);
    /// carried through and ignored by the renderer.
    Other,
}

/// What parsing an embedded passage yields; a pure function of the passage.
/// `None` stands for a passage whose syntax quick-xml rejects.
pub uninterp spec fn embed_events_of(s: Seq<char>) -> Option<Seq<EmbedEvent>>;

#[verifier::external_type_specification]
#[verifier::external_body]
pub struct ExBytesStart<'a>(quick_xml::events::BytesStart<'a>);

/// Relies on quick-xml's `BytesStart`: hands the tag name and the raw
/// attributes over as strings, best-effort decoded; a malformed attribute
/// list is an error.
#[verifier::external_body]
fn start_of(start: quick_xml::events::BytesStart<'_>) -> Result<EmbedEvent, ()> {
    let name = String::from_utf8_lossy(start.name()).into_owned();
    let mut attrs: Vec<(String, String)> = Vec::new();
    for attribute in start.attributes() {
        let attribute = match attribute {
            Ok(a) => a,
            Err(_) => return Err(()),
        };
        let key = String::from_utf8_lossy(attribute.key).into_owned();
        let value = String::from_utf8_lossy(&attribute.value).into_owned();
        attrs.push((key, value));
    }
    Ok(EmbedEvent::Start { name, attrs })
}

#[verifier::external_type_specification]
#[verifier::external_body]
pub struct ExXmlEvent<'a>(quick_xml::events::Event<'a>);

/// Relies on quick-xml's `Event`: moves each variant's fields over as
/// strings, best-effort decoded.
#[verifier::external_body]
fn embed_event_of(ev: quick_xml::events::Event<'_>) -> Result<EmbedEvent, ()> {
    match ev {
        quick_xml::events::Event::Start(start) => start_of(start),
        quick_xml::events::Event::End(end) => Ok(EmbedEvent::End { name: String::from_utf8_lossy(end.name()).into_owned() }),
        quick_xml::events::Event::Text(text) => Ok(EmbedEvent::Text(String::from_utf8_lossy(text.escaped()).into_owned())),
        quick_xml::events::Event::Empty(_) => Ok(EmbedEvent::Empty),
        _ => Ok(EmbedEvent::Other),
    }
}

/// Relies on quick-xml's `Reader` over the passage, with end-name checking
/// off and text trimming on: parsing is a pure function of the passage,
/// here named [`embed_events_of`].
#[verifier::external_body]
pub fn parse_embedded(s: &str) -> (r: Result<Vec<EmbedEvent>, ()>)
    ensures
        match r {
            Ok(v) => embed_events_of(s@) == Some(v@),
            Err(()) => embed_events_of(s@) is None,
        },
{
    let mut reader = quick_xml::Reader::from_str(s);
    reader.check_end_names(false);
    reader.trim_text(true);
    let mut buf: Vec<u8> = Vec::new();
    let mut out: Vec<EmbedEvent> = Vec::new();
    loop {
        match reader.read_event(&mut buf).map_err(|_| ())? {
            quick_xml::events::Event::Eof => return Ok(out),
            ev => out.push(embed_event_of(ev)?),
        }
        buf.clear();
    }
}

} // verus!
