//! The markup parse-event stream the renderer consumes.
//!
//! Parsing markup text into these events is pulldown-cmark's work; the
//! wrappers at the bottom convert its events one for one into the types
//! here, and the parse result is named by [`md_events_of`].

use vstd::prelude::*;

verus! {

/// A table column alignment.
#[derive(Clone, Copy, Debug, PartialEq, Eq, Structural)]
pub enum Align {
    Unset,
    Left,
    Center,
    Right,
}

/// A block or inline span opened by a start event and closed by an end
/// event.
#[derive(Debug, Clone)]
pub enum MdTag {
    Paragraph,
    /// `name` is the heading's tag name (`h1` … `h6`).
    Heading { name: String, id: Option<String>, classes: Vec<String> },
    BlockQuote,
    /// `lang` is the raw fence info string of a fenced block, `None` for an
    /// indented block.
    CodeBlock { lang: Option<String> },
    /// `start` is the first number of an ordered list, `None` for an
    /// unordered list.
    List { start: Option<u64> },
    Item,
    FootnoteDefinition { name: String },
    Table { aligns: Vec<Align> },
    TableHead,
    TableRow,
    TableCell,
    Emphasis,
    Strong,
    Strikethrough,
    Link { email: bool, dest: String, title: String },
    Image { dest: String, title: String },
}

/// One markup parse event.
#[derive(Debug, Clone)]
pub enum MdEvent {
    Start(MdTag),
    End(MdTag),
    Text(String),
    Code(String),
    Html(String),
    FootnoteReference(String),
    SoftBreak,
    HardBreak,
    Rule,
    TaskListMarker(bool),
}

/// What parsing markup text yields; a pure function of the text.
pub uninterp spec fn md_events_of(text: Seq<char>) -> Seq<MdEvent>;

/// What escaping a string for use in an URL attribute yields; a pure
/// function of the string.
pub uninterp spec fn href_escaped_of(s: Seq<char>) -> Seq<char>;

#[verifier::external_type_specification]
#[verifier::external_body]
pub struct ExEvent<'a>(pulldown_cmark::Event<'a>);

#[verifier::external_type_specification]
#[verifier::external_body]
pub struct ExTag<'a>(pulldown_cmark::Tag<'a>);

#[verifier::external_type_specification]
#[verifier::external_body]
pub struct ExAlignment(pulldown_cmark::Alignment);

/// Relies on pulldown-cmark's `Alignment`: tells its four variants apart.
#[verifier::external_body]
fn align_of(a: pulldown_cmark::Alignment) -> Align {
    match a {
        pulldown_cmark::Alignment::None => Align::Unset,
        pulldown_cmark::Alignment::Left => Align::Left,
        pulldown_cmark::Alignment::Center => Align::Center,
        pulldown_cmark::Alignment::Right => Align::Right,
    }
}

/// Relies on pulldown-cmark's `Tag`: moves each field-less variant over;
/// the callers hand every variant with fields to the other converters, so
/// only `Strikethrough` reaches the last arm.
#[verifier::external_body]
fn simple_tag_of(t: pulldown_cmark::Tag<'_>) -> MdTag {
    match t {
        pulldown_cmark::Tag::Paragraph => MdTag::Paragraph,
        pulldown_cmark::Tag::BlockQuote => MdTag::BlockQuote,
        pulldown_cmark::Tag::Item => MdTag::Item,
        pulldown_cmark::Tag::TableHead => MdTag::TableHead,
        pulldown_cmark::Tag::TableRow => MdTag::TableRow,
        pulldown_cmark::Tag::TableCell => MdTag::TableCell,
        pulldown_cmark::Tag::Emphasis => MdTag::Emphasis,
        pulldown_cmark::Tag::Strong => MdTag::Strong,
        _ => MdTag::Strikethrough,
    }
}

/// Relies on pulldown-cmark's `Tag`: moves each block variant's fields over.
#[verifier::external_body]
fn block_tag_of(t: pulldown_cmark::Tag<'_>) -> MdTag {
    match t {
        pulldown_cmark::Tag::CodeBlock(pulldown_cmark::CodeBlockKind::Fenced(l)) => MdTag::CodeBlock { lang: Some(l.into_string()) },
        pulldown_cmark::Tag::CodeBlock(pulldown_cmark::CodeBlockKind::Indented) => MdTag::CodeBlock { lang: None },
        pulldown_cmark::Tag::List(start) => MdTag::List { start },
        pulldown_cmark::Tag::FootnoteDefinition(n) => MdTag::FootnoteDefinition { name: n.into_string() },
        pulldown_cmark::Tag::Table(a) => MdTag::Table { aligns: a.into_iter().map(align_of).collect() },
        other => simple_tag_of(other),
    }
}

/// Relies on pulldown-cmark's `Tag`: moves each variant's fields over,
/// formatting the heading level as its tag name and keeping only whether a
/// link is an email link.
#[verifier::external_body]
fn tag_of(t: pulldown_cmark::Tag<'_>) -> MdTag {
    match t {
        pulldown_cmark::Tag::Heading(level, id, classes) => MdTag::Heading { name: format!("{}", level), id: id.map(|s| s.to_string()), classes: classes.iter().map(|s| s.to_string()).collect() },
        pulldown_cmark::Tag::Link(kind, dest, title) => MdTag::Link { email: matches!(kind, pulldown_cmark::LinkType::Email), dest: dest.into_string(), title: title.into_string() },
        pulldown_cmark::Tag::Image(_, dest, title) => MdTag::Image { dest: dest.into_string(), title: title.into_string() },
        other => block_tag_of(other),
    }
}

/// Relies on pulldown-cmark's `Event`: moves each variant's fields over.
#[verifier::external_body]
fn event_of(e: pulldown_cmark::Event<'_>) -> MdEvent {
    match e {
        pulldown_cmark::Event::Start(t) => MdEvent::Start(tag_of(t)),
        pulldown_cmark::Event::End(t) => MdEvent::End(tag_of(t)),
        pulldown_cmark::Event::Text(s) => MdEvent::Text(s.into_string()),
        pulldown_cmark::Event::Code(s) => MdEvent::Code(s.into_string()),
        pulldown_cmark::Event::Html(s) => MdEvent::Html(s.into_string()),
        pulldown_cmark::Event::FootnoteReference(s) => MdEvent::FootnoteReference(s.into_string()),
        pulldown_cmark::Event::SoftBreak => MdEvent::SoftBreak,
        pulldown_cmark::Event::HardBreak => MdEvent::HardBreak,
        pulldown_cmark::Event::Rule => MdEvent::Rule,
        pulldown_cmark::Event::TaskListMarker(b) => MdEvent::TaskListMarker(b),
    }
}

/// Relies on pulldown-cmark's `Parser` with all extensions enabled: parsing
/// is a pure function of the text, here named [`md_events_of`].
#[verifier::external_body]
pub fn parse_markup(text: &str) -> (r: Vec<MdEvent>)
    ensures
        r@ == md_events_of(text@),
{
    let options = pulldown_cmark::Options::all();
    pulldown_cmark::Parser::new_ext(text, options).map(event_of).collect()
}

/// Relies on pulldown-cmark's `escape_href`: a pure function of the string,
/// here named [`href_escaped_of`]; writing into a `String` cannot fail.
#[verifier::external_body]
pub fn escape_href_str(s: &str) -> (r: String)
    ensures
        r@ == href_escaped_of(s@),
{
    let mut out = String::new();
    let _ = pulldown_cmark::escape::escape_href(&mut out, s);
    out
}

} // verus!
