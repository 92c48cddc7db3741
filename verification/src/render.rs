//! The markup renderer.
//!
//! A single pass over a parse-event stream builds the document tree: an
//! explicit stack of open elements, a hard-collapse flag that drops wrapper
//! elements emptied by conditional removal, one running footnote counter,
//! table state, and the five-way disposition of embedded conditional
//! regions against the observed set and the citation-mode flag.

use vstd::prelude::*;
use crate::embed::{embed_events_of, parse_embedded, EmbedEvent};
use crate::events::{
    escape_href_str, href_escaped_of, md_events_of, parse_markup, Align, MdEvent, MdTag,
};
use crate::manifest::{spec_release_display_name, spec_releases, Manifest};
use crate::observed::ObservedSet;
use crate::text::{dec_digits, html_escaped, usize_to_string, append_html_escaped, str_eq};
use crate::tree::{
    attrs_view, elem_view, lemma_nodes_view_push, node_view, nodes_view, Element, Node, SElement,
    SNode,
};

verus! {

/// A structural fault in an embedded passage; fatal for the whole render.
#[derive(Clone, Copy, Debug, PartialEq, Eq, Structural)]
pub enum RenderError {
    /// quick-xml rejected the passage's syntax.
    EmbeddedSyntax,
    /// An embedded end tag closed nothing, or not the innermost open
    /// element.
    MismatchedTag,
}

/// The renderer's read-only surroundings: the observed set, the citation
/// flag, and the release citation labels.
pub struct REnv {
    pub observed: Set<Seq<char>>,
    pub citations: bool,
    pub labels: Seq<(Seq<char>, Seq<char>)>,
}

/// The renderer's mutable state.
#[verifier::ext_equal]
pub struct RState {
    pub aligns: Seq<Align>,
    pub in_body: bool,
    pub cell: int,
    pub numbers: Seq<(Seq<char>, int)>,
    pub hard_collapse: bool,
    pub stack: Seq<SElement>,
    pub finished: Seq<SNode>,
}

/// The view of the open-element stack.
pub open spec fn stack_view(s: Seq<Element>) -> Seq<SElement> {
    s.map_values(|e: Element| elem_view(e))
}

/// The view of the finished node list.
pub open spec fn finished_view(s: Seq<Node>) -> Seq<SNode> {
    s.map_values(|n: Node| node_view(n))
}

/// The view of the footnote number table.
pub open spec fn nums_view(s: Seq<(String, usize)>) -> Seq<(Seq<char>, int)> {
    s.map_values(|p: (String, usize)| (p.0@, p.1 as int))
}

/// The view of a citation label table.
pub open spec fn labels_view(s: Seq<(String, String)>) -> Seq<(Seq<char>, Seq<char>)> {
    s.map_values(|p: (String, String)| (p.0@, p.1@))
}

/// Opens `e` on the stack; any open element is no longer collapse-eligible.
pub open spec fn spec_nest_elem(st: RState, e: SElement) -> RState {
    RState { stack: st.stack.push(e), hard_collapse: false, ..st }
}

/// Opens an element with no children yet.
pub open spec fn spec_nest(st: RState, name: Seq<char>, attrs: Seq<(Seq<char>, Seq<char>)>) -> RState {
    spec_nest_elem(st, SElement { name, attrs, children: Seq::empty() })
}

/// Attaches a finished node: as the next child of the innermost open
/// element, or to the finished top-level sequence when nothing is open.
pub open spec fn spec_push_node(st: RState, node: SNode) -> RState {
    if st.stack.len() > 0 {
        let last = st.stack.last();
        let filled = SElement { children: last.children.push(node), ..last };
        RState { stack: st.stack.drop_last().push(filled), hard_collapse: false, ..st }
    } else {
        RState { finished: st.finished.push(node), ..st }
    }
}

/// Closes the innermost open element: it is attached unless it is
/// collapse-eligible and empty, in which case it is dropped entirely.
pub open spec fn spec_collapse(st: RState) -> RState {
    if st.stack.len() == 0 {
        st
    } else {
        let last = st.stack.last();
        let popped = RState { stack: st.stack.drop_last(), ..st };
        if !st.hard_collapse || last.children.len() > 0 {
            spec_push_node(popped, SNode::Element(last))
        } else {
            popped
        }
    }
}

/// The number assigned to footnote `name` from position `i` on.
pub open spec fn spec_num_lookup_from(ns: Seq<(Seq<char>, int)>, name: Seq<char>, i: int) -> Option<
    int,
>
    decreases ns.len() - i,
{
    if !(0 <= i < ns.len()) {
        None
    } else if ns[i].0 == name {
        Some(ns[i].1)
    } else {
        spec_num_lookup_from(ns, name, i + 1)
    }
}

/// The next free footnote number: one more than the count of names seen.
pub open spec fn spec_fresh_number(ns: Seq<(Seq<char>, int)>) -> int {
    if ns.len() < usize::MAX {
        ns.len() as int + 1
    } else {
        usize::MAX as int
    }
}

/// The number for footnote `name`, and the table afterwards: a known name
/// keeps its number, a new name is assigned the next one.
pub open spec fn spec_footnote(ns: Seq<(Seq<char>, int)>, name: Seq<char>) -> (int, Seq<
    (Seq<char>, int),
>) {
    match spec_num_lookup_from(ns, name, 0) {
        Some(n) => (n, ns),
        None => (spec_fresh_number(ns), ns.push((name, spec_fresh_number(ns)))),
    }
}

/// The citation label for `release` from position `i` of the label table.
pub open spec fn spec_label_from(
    labels: Seq<(Seq<char>, Seq<char>)>,
    release: Seq<char>,
    i: int,
) -> Option<Seq<char>>
    decreases labels.len() - i,
{
    if !(0 <= i < labels.len()) {
        None
    } else if labels[i].0 == release {
        Some(labels[i].1)
    } else {
        spec_label_from(labels, release, i + 1)
    }
}

/// The citation label for `release`: its configured display name, or the
/// raw reference name when the configuration does not know it.
pub open spec fn spec_label(labels: Seq<(Seq<char>, Seq<char>)>, release: Seq<char>) -> Seq<char> {
    match spec_label_from(labels, release, 0) {
        Some(l) => l,
        None => release,
    }
}

/// The renderer: surroundings plus mutable state.
pub struct Renderer {
    pub citations: bool,
    pub observed: ObservedSet,
    pub labels: Vec<(String, String)>,
    pub aligns: Vec<Align>,
    pub in_body: bool,
    pub cell: usize,
    pub numbers: Vec<(String, usize)>,
    pub hard_collapse: bool,
    pub stack: Vec<Element>,
    pub finished: Vec<Node>,
}

impl View for Renderer {
    type V = RState;

    open spec fn view(&self) -> RState {
        RState {
            aligns: self.aligns@,
            in_body: self.in_body,
            cell: self.cell as int,
            numbers: nums_view(self.numbers@),
            hard_collapse: self.hard_collapse,
            stack: stack_view(self.stack@),
            finished: finished_view(self.finished@),
        }
    }
}

impl Renderer {
    /// The read-only surroundings.
    pub open spec fn renv(&self) -> REnv {
        REnv { observed: self.observed@, citations: self.citations, labels: labels_view(self.labels@) }
    }

    /// Makes a fresh renderer for one render call.
    pub fn new(observed: ObservedSet, citations: bool, labels: Vec<(String, String)>) -> (r: Self)
        ensures
            r.renv() == (REnv {
                observed: observed@,
                citations: citations,
                labels: labels_view(labels@),
            }),
            r@ == spec_init(),
    {
        let r = Renderer {
            citations,
            observed,
            labels,
            aligns: Vec::new(),
            in_body: false,
            cell: 0,
            numbers: Vec::new(),
            hard_collapse: false,
            stack: Vec::new(),
            finished: Vec::new(),
        };
        proof {
            assert(r@.aligns =~= spec_init().aligns);
            assert(r@.numbers =~= spec_init().numbers);
            assert(r@.stack =~= spec_init().stack);
            assert(r@.finished =~= spec_init().finished);
            assert(r@ == spec_init());
        }
        r
    }

    /// Opens `e` on the stack.
    fn nest(&mut self, e: Element)
        ensures
            final(self)@ == spec_nest_elem(old(self)@, elem_view(e)),
            final(self).renv() == old(self).renv(),
    {
        self.stack.push(e);
        self.hard_collapse = false;
        proof {
            assert(stack_view(self.stack@) =~= old(self)@.stack.push(elem_view(e)));
            assert(self@ == spec_nest_elem(old(self)@, elem_view(e)));
        }
    }

    /// Attaches a finished node.
    fn push_node(&mut self, node: Node)
        ensures
            final(self)@ == spec_push_node(old(self)@, node_view(node)),
            final(self).renv() == old(self).renv(),
    {
        match self.stack.pop() {
            Some(mut last) => {
                self.hard_collapse = false;
                let ghost old_last = last;
                last.children.push(node);
                proof {
                    lemma_nodes_view_push(old_last.children@, node);
                    assert(elem_view(last) == SElement {
                        children: elem_view(old_last).children.push(node_view(node)),
                        ..elem_view(old_last)
                    });
                }
                self.stack.push(last);
                proof {
                    assert(old(self)@.stack.len() > 0);
                    assert(old(self)@.stack.last() == elem_view(old_last));
                    assert(stack_view(self.stack@) =~= old(self)@.stack.drop_last().push(
                        elem_view(last),
                    ));
                    assert(self@ == spec_push_node(old(self)@, node_view(node)));
                }
            },
            None => {
                self.finished.push(node);
                proof {
                    assert(old(self)@.stack.len() == 0);
                    assert(finished_view(self.finished@) =~= old(self)@.finished.push(
                        node_view(node),
                    ));
                    assert(self@ == spec_push_node(old(self)@, node_view(node)));
                }
            },
        }
    }

    /// Closes the innermost open element.
    fn collapse(&mut self)
        ensures
            final(self)@ == spec_collapse(old(self)@),
            final(self).renv() == old(self).renv(),
    {
        match self.stack.pop() {
            None => {
                proof {
                    assert(self@ == spec_collapse(old(self)@));
                }
            },
            Some(last) => {
                proof {
                    assert(old(self)@.stack.len() > 0);
                    assert(old(self)@.stack.last() == elem_view(last));
                    assert(stack_view(self.stack@) =~= old(self)@.stack.drop_last());
                }
                let keep = !self.hard_collapse || last.children.len() > 0;
                if keep {
                    proof {
                        assert(elem_view(last).children.len() == last.children@.len()) by {
                            crate::tree::lemma_nodes_view_len(last.children@);
                        }
                    }
                    self.push_node(Node::Element(last));
                } else {
                    proof {
                        assert(elem_view(last).children.len() == last.children@.len()) by {
                            crate::tree::lemma_nodes_view_len(last.children@);
                        }
                        assert(self@ == spec_collapse(old(self)@));
                    }
                }
            },
        }
    }

    /// Assigns or recalls the footnote number for `name`; numbers start at
    /// one and follow first sight, and a repeated name keeps its number.
    fn footnote_number(&mut self, name: &str) -> (n: usize)
        ensures
            n as int == spec_footnote(old(self)@.numbers, name@).0,
            final(self)@ == (RState {
                numbers: spec_footnote(old(self)@.numbers, name@).1,
                ..old(self)@
            }),
            final(self).renv() == old(self).renv(),
    {
        let ghost ns = self@.numbers;
        let count = self.numbers.len();
        let mut i: usize = 0;
        while i < count
            invariant
                count == self.numbers@.len(),
                i <= count,
                ns == nums_view(self.numbers@),
                spec_num_lookup_from(ns, name@, 0) == spec_num_lookup_from(ns, name@, i as int),
            decreases count - i,
        {
            if str_eq(self.numbers[i].0.as_str(), name) {
                return self.numbers[i].1;
            }
            i = i + 1;
        }
        let fresh = if count < usize::MAX {
            count + 1
        } else {
            usize::MAX
        };
        let ghost before = self.numbers@;
        self.numbers.push((String::from_str(name), fresh));
        proof {
            assert(nums_view(self.numbers@) =~= nums_view(before).push((name@, fresh as int)));
            assert(self@ == (RState { numbers: spec_footnote(ns, name@).1, ..old(self)@ }));
        }
        fresh
    }

    /// The citation label for `release`.
    fn label_of(&self, release: &str) -> (r: String)
        ensures
            r@ == spec_label(self.renv().labels, release@),
    {
        let ghost labels = self.renv().labels;
        let count = self.labels.len();
        let mut i: usize = 0;
        while i < count
            invariant
                count == self.labels@.len(),
                i <= count,
                labels == labels_view(self.labels@),
                spec_label_from(labels, release@, 0) == spec_label_from(labels, release@, i as int),
            decreases count - i,
        {
            if str_eq(self.labels[i].0.as_str(), release) {
                return self.labels[i].1.clone();
            }
            i = i + 1;
        }
        String::from_str(release)
    }
}

/// The state a render call starts from.
pub open spec fn spec_init() -> RState {
    RState {
        aligns: Seq::empty(),
        in_body: false,
        cell: 0,
        numbers: Seq::empty(),
        hard_collapse: false,
        stack: Seq::empty(),
        finished: Seq::empty(),
    }
}

/// The first position at or after `i` where `s` holds a plain space, or the
/// end of `s`; bounds the language name in a fence info string.
pub open spec fn fence_lang_end(s: Seq<char>, i: int) -> int
    decreases s.len() - i,
{
    if !(0 <= i < s.len()) {
        i
    } else if s[i] == ' ' {
        i
    } else {
        fence_lang_end(s, i + 1)
    }
}

/// Class names joined with single spaces.
pub open spec fn spec_joined(cs: Seq<Seq<char>>) -> Seq<char>
    decreases cs.len(),
{
    if cs.len() == 0 {
        Seq::empty()
    } else if cs.len() == 1 {
        cs[0]
    } else {
        spec_joined(cs.drop_last()) + seq![' '] + cs.last()
    }
}

/// The attributes of a heading: its identifier, then its classes joined,
/// each only when present.
pub open spec fn spec_heading_attrs(id: Option<String>, classes: Seq<Seq<char>>) -> Seq<
    (Seq<char>, Seq<char>),
> {
    (match id {
        Some(i) => seq![("id"@, i@)],
        None => Seq::empty(),
    }) + (if spec_joined(classes).len() > 0 {
        seq![("class"@, spec_joined(classes))]
    } else {
        Seq::empty()
    })
}

/// The attributes of a fenced code element: a `language-` class from the
/// first word of the fence info string, when there is one.
pub open spec fn spec_code_attrs(lang: Option<String>) -> Seq<(Seq<char>, Seq<char>)> {
    match lang {
        None => Seq::empty(),
        Some(info) => {
            let first = info@.subrange(0, fence_lang_end(info@, 0));
            if first.len() > 0 {
                seq![("class"@, "language-"@ + html_escaped(first))]
            } else {
                Seq::empty()
            }
        },
    }
}

/// The attributes of a link: its escaped destination (an email link gets a
/// `mailto:` scheme) and its escaped title when present.
pub open spec fn spec_link_attrs(email: bool, dest: Seq<char>, title: Seq<char>) -> Seq<
    (Seq<char>, Seq<char>),
> {
    seq![
        (
            "href"@,
            if email {
                "mailto:"@ + href_escaped_of(dest)
            } else {
                href_escaped_of(dest)
            },
        ),
    ] + (if title.len() > 0 {
        seq![("title"@, html_escaped(title))]
    } else {
        Seq::empty()
    })
}

/// The attributes of a task-list marker: a disabled checkbox, checked when
/// the task is done.
pub open spec fn spec_task_attrs(done: bool) -> Seq<(Seq<char>, Seq<char>)> {
    seq![("disabled"@, "disabled"@), ("type"@, "checkbox"@)] + (if done {
        seq![("checked"@, "checked"@)]
    } else {
        Seq::empty()
    })
}

/// The style attribute of a table cell, by the column's alignment.
pub open spec fn spec_cell_attrs(st: RState) -> Seq<(Seq<char>, Seq<char>)> {
    if 0 <= st.cell < st.aligns.len() {
        match st.aligns[st.cell] {
            Align::Unset => Seq::empty(),
            Align::Left => seq![("style"@, "text-align: left"@)],
            Align::Center => seq![("style"@, "text-align: center"@)],
            Align::Right => seq![("style"@, "text-align: right"@)],
        }
    } else {
        Seq::empty()
    }
}

/// Opening a footnote definition: the name's number is assigned or
/// recalled, and a definition block opens with its label already inside.
pub open spec fn spec_footnote_def(st: RState, name: Seq<char>) -> RState {
    let num = spec_footnote(st.numbers, name).0;
    let ns = spec_footnote(st.numbers, name).1;
    let sup = SElement {
        name: "sup"@,
        attrs: seq![("class"@, "footnote-definition-label"@)],
        children: seq![SNode::Text(dec_digits(num as nat))],
    };
    let div = SElement {
        name: "div"@,
        attrs: seq![("class"@, "footnote-definition"@), ("id"@, html_escaped(name))],
        children: seq![SNode::Element(sup)],
    };
    spec_nest_elem(RState { numbers: ns, ..st }, div)
}

/// A footnote reference: the name's number is assigned or recalled and a
/// superscript link to the definition is attached.
pub open spec fn spec_footnote_ref(st: RState, name: Seq<char>) -> RState {
    let num = spec_footnote(st.numbers, name).0;
    let ns = spec_footnote(st.numbers, name).1;
    let a = SElement {
        name: "a"@,
        attrs: seq![("href"@, html_escaped(name))],
        children: seq![SNode::Text(dec_digits(num as nat))],
    };
    let sup = SElement {
        name: "sup"@,
        attrs: seq![("class"@, "footnote-reference"@)],
        children: seq![SNode::Element(a)],
    };
    spec_push_node(RState { numbers: ns, ..st }, SNode::Element(sup))
}

/// What a start event does to the state. An image start is not handled
/// here: the run loop consumes its inner events for the alt text.
pub open spec fn spec_start_tag(st: RState, tag: MdTag) -> RState {
    match tag {
        MdTag::Paragraph => spec_nest(st, "p"@, Seq::empty()),
        MdTag::Heading { name, id, classes } => spec_nest(
            st,
            name@,
            spec_heading_attrs(id, classes@.map_values(|c: String| c@)),
        ),
        MdTag::BlockQuote => spec_nest(st, "blockquote"@, Seq::empty()),
        MdTag::CodeBlock { lang } => spec_nest(
            spec_nest(st, "pre"@, Seq::empty()),
            "code"@,
            spec_code_attrs(lang),
        ),
        MdTag::List { start } => match start {
            Some(n) => spec_nest(
                st,
                "ol"@,
                if n != 1 {
                    seq![("start"@, dec_digits(n as nat))]
                } else {
                    Seq::empty()
                },
            ),
            None => spec_nest(st, "ul"@, Seq::empty()),
        },
        MdTag::Item => spec_nest(st, "li"@, Seq::empty()),
        MdTag::FootnoteDefinition { name } => spec_footnote_def(st, name@),
        MdTag::Table { aligns } => RState { aligns: aligns@, ..spec_nest(st, "table"@, Seq::empty()) },
        MdTag::TableHead => spec_nest(
            spec_nest(RState { in_body: false, cell: 0, ..st }, "thead"@, Seq::empty()),
            "tr"@,
            Seq::empty(),
        ),
        MdTag::TableRow => spec_nest(RState { cell: 0, ..st }, "tr"@, Seq::empty()),
        MdTag::TableCell => spec_nest(
            st,
            if st.in_body {
                "td"@
            } else {
                "th"@
            },
            spec_cell_attrs(st),
        ),
        MdTag::Emphasis => spec_nest(st, "em"@, Seq::empty()),
        MdTag::Strong => spec_nest(st, "strong"@, Seq::empty()),
        MdTag::Strikethrough => spec_nest(st, "del"@, Seq::empty()),
        MdTag::Link { email, dest, title } => spec_nest(
            st,
            "a"@,
            spec_link_attrs(email, dest@, title@),
        ),
        MdTag::Image { .. } => st,
    }
}

/// The next table column, bounded by the alignment list.
pub open spec fn spec_next_cell(st: RState) -> int {
    if st.cell < st.aligns.len() {
        st.cell + 1
    } else {
        st.cell
    }
}

/// What an end event does to the state. Tables and code blocks close two
/// elements; closing the table head opens the body and switches to body
/// cells; an image end was already consumed with its start.
pub open spec fn spec_end_tag(st: RState, tag: MdTag) -> RState {
    match tag {
        MdTag::Table { .. } => spec_collapse(spec_collapse(st)),
        MdTag::CodeBlock { .. } => spec_collapse(spec_collapse(st)),
        MdTag::TableHead => spec_nest(
            RState { in_body: true, ..spec_collapse(spec_collapse(st)) },
            "tbody"@,
            Seq::empty(),
        ),
        MdTag::TableCell => {
            let c = spec_collapse(st);
            RState { cell: spec_next_cell(c), ..c }
        },
        MdTag::Image { .. } => st,
        _ => spec_collapse(st),
    }
}

/// What the events without tags do to the state.
pub open spec fn spec_plain_event(st: RState, ev: MdEvent) -> RState {
    match ev {
        MdEvent::Text(t) => spec_push_node(st, SNode::Text(t@)),
        MdEvent::Code(c) => spec_push_node(
            st,
            SNode::Element(
                SElement { name: "code"@, attrs: Seq::empty(), children: seq![SNode::Text(c@)] },
            ),
        ),
        MdEvent::SoftBreak => spec_push_node(st, SNode::Text("\n"@)),
        MdEvent::HardBreak => spec_push_node(
            st,
            SNode::Element(SElement { name: "br"@, attrs: Seq::empty(), children: Seq::empty() }),
        ),
        MdEvent::Rule => spec_push_node(
            st,
            SNode::Element(SElement { name: "hr"@, attrs: Seq::empty(), children: Seq::empty() }),
        ),
        MdEvent::TaskListMarker(b) => spec_push_node(
            st,
            SNode::Element(
                SElement { name: "input"@, attrs: spec_task_attrs(b), children: Seq::empty() },
            ),
        ),
        MdEvent::FootnoteReference(name) => spec_footnote_ref(st, name@),
        _ => st,
    }
}


/// Makes an element with no attributes or children yet.
fn make_elem(name: &str) -> (e: Element)
    ensures
        elem_view(e) == (SElement { name: name@, attrs: Seq::empty(), children: Seq::empty() }),
{
    let e = Element { name: String::from_str(name), attrs: Vec::new(), children: Vec::new() };
    proof {
        assert(attrs_view(e.attrs@) =~= Seq::<(Seq<char>, Seq<char>)>::empty());
        assert(elem_view(e) =~= (SElement {
            name: name@,
            attrs: Seq::empty(),
            children: Seq::empty(),
        }));
    }
    e
}

/// Makes an element with the given attributes and no children yet.
fn make_elem_attrs(name: &str, attrs: Vec<(String, String)>) -> (e: Element)
    ensures
        elem_view(e) == (SElement {
            name: name@,
            attrs: attrs_view(attrs@),
            children: Seq::empty(),
        }),
{
    let e = Element { name: String::from_str(name), attrs, children: Vec::new() };
    proof {
        assert(elem_view(e) =~= (SElement {
            name: name@,
            attrs: attrs_view(e.attrs@),
            children: Seq::empty(),
        }));
    }
    e
}

/// Appends one attribute.
fn push_attr(attrs: &mut Vec<(String, String)>, k: &str, v: String)
    ensures
        attrs_view(final(attrs)@) == attrs_view(old(attrs)@).push((k@, v@)),
{
    attrs.push((String::from_str(k), v));
    proof {
        assert(attrs_view(attrs@) =~= attrs_view(old(attrs)@).push((k@, v@)));
    }
}

/// Joins class names with single spaces.
fn join_classes(classes: &Vec<String>) -> (r: String)
    ensures
        r@ == spec_joined(classes@.map_values(|c: String| c@)),
{
    let mut out = String::new();
    let n = classes.len();
    let mut i: usize = 0;
    while i < n
        invariant
            n == classes@.len(),
            i <= n,
            out@ == spec_joined(classes@.subrange(0, i as int).map_values(|c: String| c@)),
        decreases n - i,
    {
        if i > 0 {
            out.append(" ");
        }
        out.append(classes[i].as_str());
        proof {
            reveal_strlit(" ");
            let cur = classes@.subrange(0, i + 1).map_values(|c: String| c@);
            let pre = classes@.subrange(0, i as int).map_values(|c: String| c@);
            assert(cur.drop_last() =~= pre);
            assert(cur.last() == classes@[i as int]@);
            if i == 0 {
                assert(out@ =~= spec_joined(cur));
            } else {
                assert(out@ =~= spec_joined(cur));
            }
        }
        i = i + 1;
    }
    proof {
        assert(classes@.subrange(0, n as int) =~= classes@);
    }
    out
}

/// The attributes of a fenced code element.
fn code_attrs(lang: &Option<String>) -> (r: Vec<(String, String)>)
    ensures
        attrs_view(r@) == spec_code_attrs(*lang),
{
    match lang {
        None => {
            let r: Vec<(String, String)> = Vec::new();
            proof {
                assert(attrs_view(r@) =~= spec_code_attrs(*lang));
            }
            r
        },
        Some(info) => {
            let s = info.as_str();
            let len = s.unicode_len();
            let mut j: usize = 0;
            while j < len && s.get_char(j) != ' '
                invariant
                    s@.len() == len,
                    j <= len,
                    fence_lang_end(s@, 0) == fence_lang_end(s@, j as int),
                decreases len - j,
            {
                j = j + 1;
            }
            proof {
                assert(fence_lang_end(s@, j as int) == j);
            }
            let mut r: Vec<(String, String)> = Vec::new();
            if j > 0 {
                let first = s.substring_char(0, j);
                let mut v = String::from_str("language-");
                append_html_escaped(&mut v, first);
                push_attr(&mut r, "class", v);
                proof {
                    assert(attrs_view(r@) =~= spec_code_attrs(*lang));
                }
            } else {
                proof {
                    assert(attrs_view(r@) =~= spec_code_attrs(*lang));
                }
            }
            r
        },
    }
}

/// The attributes of a link.
fn link_attrs(email: bool, dest: &str, title: &str) -> (r: Vec<(String, String)>)
    ensures
        attrs_view(r@) == spec_link_attrs(email, dest@, title@),
{
    let escaped = escape_href_str(dest);
    let href = if email {
        let mut h = String::from_str("mailto:");
        h.append(escaped.as_str());
        h
    } else {
        escaped
    };
    let mut r: Vec<(String, String)> = Vec::new();
    push_attr(&mut r, "href", href);
    if title.unicode_len() > 0 {
        push_attr(&mut r, "title", crate::text::html_escape(title));
    }
    proof {
        assert(attrs_view(r@) =~= spec_link_attrs(email, dest@, title@));
    }
    r
}

/// Copies an alignment list.
fn copy_aligns(v: &Vec<Align>) -> (r: Vec<Align>)
    ensures
        r@ == v@,
{
    let mut r: Vec<Align> = Vec::new();
    let n = v.len();
    let mut i: usize = 0;
    while i < n
        invariant
            n == v@.len(),
            i <= n,
            r@ =~= v@.subrange(0, i as int),
        decreases n - i,
    {
        r.push(v[i]);
        proof {
            assert(r@ =~= v@.subrange(0, i + 1));
        }
        i = i + 1;
    }
    proof {
        assert(v@.subrange(0, n as int) =~= v@);
    }
    r
}

impl Renderer {
    /// The style attribute for the current table cell.
    fn cell_attrs(&self) -> (r: Vec<(String, String)>)
        ensures
            attrs_view(r@) == spec_cell_attrs(self@),
    {
        let mut r: Vec<(String, String)> = Vec::new();
        if self.cell < self.aligns.len() {
            match self.aligns[self.cell] {
                Align::Unset => {},
                Align::Left => push_attr(&mut r, "style", String::from_str("text-align: left")),
                Align::Center => push_attr(&mut r, "style", String::from_str("text-align: center")),
                Align::Right => push_attr(&mut r, "style", String::from_str("text-align: right")),
            }
        }
        proof {
            assert(attrs_view(r@) =~= spec_cell_attrs(self@));
        }
        r
    }

    /// Opens a footnote definition block.
    fn footnote_def(&mut self, name: &str)
        ensures
            final(self)@ == spec_footnote_def(old(self)@, name@),
            final(self).renv() == old(self).renv(),
    {
        let num = self.footnote_number(name);
        let ghost tnum = spec_footnote(old(self)@.numbers, name@).0;
        let ghost mid = self@;
        let label = usize_to_string(num);
        proof {
            assert(num as int == tnum);
            assert(label@ == dec_digits(tnum as nat));
        }
        let mut sup_attrs: Vec<(String, String)> = Vec::new();
        push_attr(&mut sup_attrs, "class", String::from_str("footnote-definition-label"));
        let mut sup = make_elem_attrs("sup", sup_attrs);
        let ghost sup0 = sup;
        sup.children.push(Node::Text(label));
        proof {
            lemma_nodes_view_push(sup0.children@, sup.children@.last());
            assert(elem_view(sup) =~~= (SElement {
                name: "sup"@,
                attrs: seq![("class"@, "footnote-definition-label"@)],
                children: seq![SNode::Text(dec_digits(tnum as nat))],
            }));
        }
        let mut div_attrs: Vec<(String, String)> = Vec::new();
        push_attr(&mut div_attrs, "class", String::from_str("footnote-definition"));
        push_attr(&mut div_attrs, "id", crate::text::html_escape(name));
        let mut div = make_elem_attrs("div", div_attrs);
        let ghost div0 = div;
        div.children.push(Node::Element(sup));
        proof {
            lemma_nodes_view_push(div0.children@, div.children@.last());
        }
        self.nest(div);
        proof {
            assert(mid == (RState {
                numbers: spec_footnote(old(self)@.numbers, name@).1,
                ..old(self)@
            }));
            assert(self@ == spec_nest_elem(mid, elem_view(div)));
            assert(elem_view(div) =~~= (SElement {
                name: "div"@,
                attrs: seq![("class"@, "footnote-definition"@), ("id"@, html_escaped(name@))],
                children: seq![
                    SNode::Element(
                        SElement {
                            name: "sup"@,
                            attrs: seq![("class"@, "footnote-definition-label"@)],
                            children: seq![SNode::Text(dec_digits(tnum as nat))],
                        },
                    ),
                ],
            }));
            assert(self@ =~~= spec_footnote_def(old(self)@, name@));
        }
    }

    /// Attaches a footnote reference.
    fn footnote_ref(&mut self, name: &str)
        ensures
            final(self)@ == spec_footnote_ref(old(self)@, name@),
            final(self).renv() == old(self).renv(),
    {
        let num = self.footnote_number(name);
        let ghost tnum = spec_footnote(old(self)@.numbers, name@).0;
        let ghost mid = self@;
        let label = usize_to_string(num);
        proof {
            assert(num as int == tnum);
            assert(label@ == dec_digits(tnum as nat));
        }
        let mut a_attrs: Vec<(String, String)> = Vec::new();
        push_attr(&mut a_attrs, "href", crate::text::html_escape(name));
        let mut a = make_elem_attrs("a", a_attrs);
        let ghost a0 = a;
        a.children.push(Node::Text(label));
        proof {
            lemma_nodes_view_push(a0.children@, a.children@.last());
            assert(attrs_view(a.attrs@) =~= seq![("href"@, html_escaped(name@))]);
            assert(nodes_view(a.children@) =~= seq![SNode::Text(dec_digits(tnum as nat))]);
            assert(elem_view(a) =~~= (SElement {
                name: "a"@,
                attrs: seq![("href"@, html_escaped(name@))],
                children: seq![SNode::Text(dec_digits(tnum as nat))],
            }));
        }
        let mut sup_attrs: Vec<(String, String)> = Vec::new();
        push_attr(&mut sup_attrs, "class", String::from_str("footnote-reference"));
        let mut sup = make_elem_attrs("sup", sup_attrs);
        let ghost sup0 = sup;
        sup.children.push(Node::Element(a));
        proof {
            lemma_nodes_view_push(sup0.children@, sup.children@.last());
        }
        self.push_node(Node::Element(sup));
        proof {
            assert(mid == (RState {
                numbers: spec_footnote(old(self)@.numbers, name@).1,
                ..old(self)@
            }));
            assert(self@ == spec_push_node(mid, SNode::Element(elem_view(sup))));
            assert(elem_view(sup) =~~= (SElement {
                name: "sup"@,
                attrs: seq![("class"@, "footnote-reference"@)],
                children: seq![
                    SNode::Element(
                        SElement {
                            name: "a"@,
                            attrs: seq![("href"@, html_escaped(name@))],
                            children: seq![SNode::Text(dec_digits(tnum as nat))],
                        },
                    ),
                ],
            }));
            assert(self@ =~~= spec_footnote_ref(old(self)@, name@));
        }
    }

    /// Applies a start event.
    fn start_tag(&mut self, tag: &MdTag)
        ensures
            final(self)@ == spec_start_tag(old(self)@, *tag),
            final(self).renv() == old(self).renv(),
    {
        match tag {
            MdTag::Paragraph => self.nest(make_elem("p")),
            MdTag::Heading { name, id, classes } => {
                let mut attrs: Vec<(String, String)> = Vec::new();
                match id {
                    Some(i) => push_attr(&mut attrs, "id", i.clone()),
                    None => {},
                }
                let joined = join_classes(classes);
                if joined.as_str().unicode_len() > 0 {
                    push_attr(&mut attrs, "class", joined);
                }
                proof {
                    assert(attrs_view(attrs@) =~= spec_heading_attrs(
                        *id,
                        classes@.map_values(|c: String| c@),
                    ));
                }
                self.nest(make_elem_attrs(name.as_str(), attrs));
            },
            MdTag::BlockQuote => self.nest(make_elem("blockquote")),
            MdTag::CodeBlock { lang } => {
                self.nest(make_elem("pre"));
                let attrs = code_attrs(lang);
                self.nest(make_elem_attrs("code", attrs));
            },
            MdTag::List { start } => match start {
                Some(n) => {
                    let mut attrs: Vec<(String, String)> = Vec::new();
                    if *n != 1 {
                        push_attr(&mut attrs, "start", crate::text::u64_to_string(*n));
                    }
                    proof {
                        if *n != 1 {
                            assert(attrs_view(attrs@) =~= seq![("start"@, dec_digits(*n as nat))]);
                        } else {
                            assert(attrs_view(attrs@) =~= Seq::<(Seq<char>, Seq<char>)>::empty());
                        }
                    }
                    self.nest(make_elem_attrs("ol", attrs));
                },
                None => self.nest(make_elem("ul")),
            },
            MdTag::Item => self.nest(make_elem("li")),
            MdTag::FootnoteDefinition { name } => self.footnote_def(name.as_str()),
            MdTag::Table { aligns } => {
                self.nest(make_elem("table"));
                self.aligns = copy_aligns(aligns);
            },
            MdTag::TableHead => {
                self.in_body = false;
                self.cell = 0;
                self.nest(make_elem("thead"));
                self.nest(make_elem("tr"));
            },
            MdTag::TableRow => {
                self.cell = 0;
                self.nest(make_elem("tr"));
            },
            MdTag::TableCell => {
                let attrs = self.cell_attrs();
                let name = if self.in_body {
                    "td"
                } else {
                    "th"
                };
                self.nest(make_elem_attrs(name, attrs));
            },
            MdTag::Emphasis => self.nest(make_elem("em")),
            MdTag::Strong => self.nest(make_elem("strong")),
            MdTag::Strikethrough => self.nest(make_elem("del")),
            MdTag::Link { email, dest, title } => {
                let attrs = link_attrs(*email, dest.as_str(), title.as_str());
                self.nest(make_elem_attrs("a", attrs));
            },
            MdTag::Image { .. } => {},
        }
    }

    /// Applies an end event.
    fn end_tag(&mut self, tag: &MdTag)
        ensures
            final(self)@ == spec_end_tag(old(self)@, *tag),
            final(self).renv() == old(self).renv(),
    {
        match tag {
            MdTag::Table { .. } => {
                self.collapse();
                self.collapse();
            },
            MdTag::CodeBlock { .. } => {
                self.collapse();
                self.collapse();
            },
            MdTag::TableHead => {
                self.collapse();
                self.collapse();
                self.in_body = true;
                self.nest(make_elem("tbody"));
            },
            MdTag::TableCell => {
                self.collapse();
                if self.cell < self.aligns.len() {
                    self.cell = self.cell + 1;
                }
            },
            MdTag::Image { .. } => {},
            _ => self.collapse(),
        }
    }

    /// Applies an event that opens and closes nothing.
    fn plain_event(&mut self, ev: &MdEvent)
        ensures
            final(self)@ == spec_plain_event(old(self)@, *ev),
            final(self).renv() == old(self).renv(),
    {
        match ev {
            MdEvent::Text(t) => self.push_node(Node::Text(t.clone())),
            MdEvent::Code(c) => {
                let mut code = make_elem("code");
                let ghost code0 = code;
                code.children.push(Node::Text(c.clone()));
                proof {
                    lemma_nodes_view_push(code0.children@, code.children@.last());
                }
                self.push_node(Node::Element(code));
                proof {
                    assert(self@ =~~= spec_plain_event(old(self)@, *ev));
                }
            },
            MdEvent::SoftBreak => self.push_node(Node::Text(String::from_str("\n"))),
            MdEvent::HardBreak => self.push_node(Node::Element(make_elem("br"))),
            MdEvent::Rule => self.push_node(Node::Element(make_elem("hr"))),
            MdEvent::TaskListMarker(b) => {
                let mut attrs: Vec<(String, String)> = Vec::new();
                push_attr(&mut attrs, "disabled", String::from_str("disabled"));
                push_attr(&mut attrs, "type", String::from_str("checkbox"));
                if *b {
                    push_attr(&mut attrs, "checked", String::from_str("checked"));
                }
                proof {
                    assert(attrs_view(attrs@) =~= spec_task_attrs(*b));
                }
                self.push_node(Node::Element(make_elem_attrs("input", attrs)));
            },
            MdEvent::FootnoteReference(name) => self.footnote_ref(name.as_str()),
            _ => {},
        }
    }
}

/// The alt text consumed for an image: the inner events up to the matching
/// end, flattened to escaped text; footnote references still allocate
/// numbers. Yields the text, the numbers afterwards, and the index after
/// the matching end event.
pub open spec fn spec_raw_text(
    events: Seq<MdEvent>,
    i: int,
    nest: int,
    acc: Seq<char>,
    ns: Seq<(Seq<char>, int)>,
) -> (Seq<char>, Seq<(Seq<char>, int)>, int)
    decreases events.len() - i,
{
    if !(0 <= i < events.len()) {
        (acc, ns, events.len() as int)
    } else {
        match events[i] {
            MdEvent::Start(_) => spec_raw_text(events, i + 1, nest + 1, acc, ns),
            MdEvent::End(_) => if nest == 0 {
                (acc, ns, i + 1)
            } else {
                spec_raw_text(events, i + 1, nest - 1, acc, ns)
            },
            MdEvent::Text(t) => spec_raw_text(events, i + 1, nest, acc + html_escaped(t@), ns),
            MdEvent::Code(t) => spec_raw_text(events, i + 1, nest, acc + html_escaped(t@), ns),
            MdEvent::Html(t) => spec_raw_text(events, i + 1, nest, acc + html_escaped(t@), ns),
            MdEvent::SoftBreak => spec_raw_text(events, i + 1, nest, acc + " "@, ns),
            MdEvent::HardBreak => spec_raw_text(events, i + 1, nest, acc + " "@, ns),
            MdEvent::Rule => spec_raw_text(events, i + 1, nest, acc + " "@, ns),
            MdEvent::FootnoteReference(name) => spec_raw_text(
                events,
                i + 1,
                nest,
                acc + "["@ + dec_digits(spec_footnote(ns, name@).0 as nat) + "]"@,
                spec_footnote(ns, name@).1,
            ),
            MdEvent::TaskListMarker(b) => spec_raw_text(
                events,
                i + 1,
                nest,
                acc + if b {
                    "[x]"@
                } else {
                    "[ ]"@
                },
                ns,
            ),
        }
    }
}

/// The index `spec_raw_text` stops at lies between `i` and the end.
pub proof fn lemma_raw_text_bounds(
    events: Seq<MdEvent>,
    i: int,
    nest: int,
    acc: Seq<char>,
    ns: Seq<(Seq<char>, int)>,
)
    requires
        0 <= i <= events.len(),
    ensures
        i <= spec_raw_text(events, i, nest, acc, ns).2 <= events.len(),
    decreases events.len() - i,
{
    if 0 <= i < events.len() {
        match events[i] {
            MdEvent::Start(_) => lemma_raw_text_bounds(events, i + 1, nest + 1, acc, ns),
            MdEvent::End(_) => {
                if nest != 0 {
                    lemma_raw_text_bounds(events, i + 1, nest - 1, acc, ns);
                }
            },
            MdEvent::Text(t) => lemma_raw_text_bounds(events, i + 1, nest, acc + html_escaped(t@), ns),
            MdEvent::Code(t) => lemma_raw_text_bounds(events, i + 1, nest, acc + html_escaped(t@), ns),
            MdEvent::Html(t) => lemma_raw_text_bounds(events, i + 1, nest, acc + html_escaped(t@), ns),
            MdEvent::SoftBreak => lemma_raw_text_bounds(events, i + 1, nest, acc + " "@, ns),
            MdEvent::HardBreak => lemma_raw_text_bounds(events, i + 1, nest, acc + " "@, ns),
            MdEvent::Rule => lemma_raw_text_bounds(events, i + 1, nest, acc + " "@, ns),
            MdEvent::FootnoteReference(name) => lemma_raw_text_bounds(
                events,
                i + 1,
                nest,
                acc + "["@ + dec_digits(spec_footnote(ns, name@).0 as nat) + "]"@,
                spec_footnote(ns, name@).1,
            ),
            MdEvent::TaskListMarker(b) => lemma_raw_text_bounds(
                events,
                i + 1,
                nest,
                acc + if b {
                    "[x]"@
                } else {
                    "[ ]"@
                },
                ns,
            ),
        }
    }
}

/// The attributes of an image: escaped source, flattened alt text when any,
/// escaped title when any.
pub open spec fn spec_img_attrs(dest: Seq<char>, alt: Seq<char>, title: Seq<char>) -> Seq<
    (Seq<char>, Seq<char>),
> {
    seq![("src"@, href_escaped_of(dest))] + (if alt.len() > 0 {
        seq![("alt"@, alt)]
    } else {
        Seq::empty()
    }) + (if title.len() > 0 {
        seq![("title"@, html_escaped(title))]
    } else {
        Seq::empty()
    })
}

/// Dropping a conditional region: the element and its subtree are
/// discarded; if that left the new innermost element childless, it becomes
/// collapse-eligible.
pub open spec fn spec_drop_top(st: RState) -> RState {
    let stack2 = st.stack.drop_last();
    RState {
        stack: stack2,
        hard_collapse: if stack2.len() > 0 {
            stack2.last().children.len() == 0
        } else {
            st.hard_collapse
        },
        ..st
    }
}

/// Flattening a conditional region: its children are spliced into the
/// parent, or kept as a top-level fragment list; only the wrapper goes.
pub open spec fn spec_flatten(st: RState) -> RState {
    let cs = st.stack.last().children;
    let stack2 = st.stack.drop_last();
    if stack2.len() > 0 {
        let top = stack2.last();
        RState {
            stack: stack2.drop_last().push(SElement { children: top.children + cs, ..top }),
            hard_collapse: false,
            ..st
        }
    } else {
        RState { stack: stack2, finished: st.finished.push(SNode::List(cs)), ..st }
    }
}

/// Citing a conditional region: its children are wrapped in a marker
/// element carrying the citation kind and the release label, with a
/// trailing visible tag label.
pub open spec fn spec_cite(env: REnv, st: RState, release: Seq<char>, hidden: bool) -> RState {
    let label = spec_label(env.labels, release);
    let cs = st.stack.last().children;
    let tag_kind = if hidden {
        "excluded-tag"@
    } else {
        "observed-tag"@
    };
    let content_kind = if hidden {
        "excluded-content"@
    } else {
        "observed-content"@
    };
    let span_cite = SElement {
        name: "span"@,
        attrs: seq![("data-cite-kind"@, tag_kind), ("data-cite-tag"@, label)],
        children: seq![SNode::Text(label)],
    };
    let span = SElement {
        name: "span"@,
        attrs: seq![("data-cite-kind"@, content_kind), ("data-cite-tag"@, label)],
        children: cs + seq![SNode::Element(span_cite)],
    };
    spec_push_node(
        RState { stack: st.stack.drop_last(), hard_collapse: false, ..st },
        SNode::Element(span),
    )
}

/// Whether a tag name has the given two-character conditional prefix.
pub open spec fn spec_has_mode_prefix(name: Seq<char>, mode: char) -> bool {
    name.len() >= 2 && name[0] == mode && name[1] == '-'
}

/// Closing an embedded element whose name matches the innermost open one:
/// an `x-` region is kept while unobserved and dropped or cited once
/// observed; an `o-` region is flattened once observed and dropped or cited
/// while unobserved; any other element closes normally.
pub open spec fn spec_close_embedded(env: REnv, st: RState, name: Seq<char>) -> RState {
    if spec_has_mode_prefix(name, 'x') {
        let release = name.subrange(2, name.len() as int);
        if env.observed.contains(release) {
            if env.citations {
                spec_cite(env, st, release, true)
            } else {
                spec_drop_top(st)
            }
        } else {
            spec_collapse(st)
        }
    } else if spec_has_mode_prefix(name, 'o') {
        let release = name.subrange(2, name.len() as int);
        if env.observed.contains(release) {
            spec_flatten(st)
        } else {
            if env.citations {
                spec_cite(env, st, release, false)
            } else {
                spec_drop_top(st)
            }
        }
    } else {
        spec_collapse(st)
    }
}

/// Running the events of one embedded passage from position `i` on. An end
/// tag that closes nothing, or whose name is not the innermost open
/// element's, is a structural error.
pub open spec fn spec_embed_run(env: REnv, st: RState, evs: Seq<EmbedEvent>, i: int) -> Result<
    RState,
    RenderError,
>
    decreases evs.len() - i,
{
    if !(0 <= i < evs.len()) {
        Ok(st)
    } else {
        match evs[i] {
            EmbedEvent::Start { name, attrs } => spec_embed_run(
                env,
                spec_nest(st, name@, attrs_view(attrs@)),
                evs,
                i + 1,
            ),
            EmbedEvent::Text(t) => spec_embed_run(env, spec_push_node(st, SNode::Text(t@)), evs, i + 1),
            EmbedEvent::Empty => spec_embed_run(env, st, evs, i + 1),
            EmbedEvent::Other => spec_embed_run(env, st, evs, i + 1),
            EmbedEvent::End { name } => if st.stack.len() == 0 || st.stack.last().name != name@ {
                Err(RenderError::MismatchedTag)
            } else {
                spec_embed_run(env, spec_close_embedded(env, st, name@), evs, i + 1)
            },
        }
    }
}

/// Running the whole event stream from position `i` on.
pub open spec fn spec_run(env: REnv, events: Seq<MdEvent>, i: int, st: RState) -> Result<
    RState,
    RenderError,
>
    decreases events.len() - i, via spec_run_dec
{
    if !(0 <= i < events.len()) {
        Ok(st)
    } else {
        match events[i] {
            MdEvent::Start(tag) => match tag {
                MdTag::Image { dest, title } => {
                    let r = spec_raw_text(events, i + 1, 0, Seq::empty(), st.numbers);
                    let img = SElement {
                        name: "img"@,
                        attrs: spec_img_attrs(dest@, r.0, title@),
                        children: Seq::empty(),
                    };
                    let st2 = spec_collapse(spec_nest_elem(RState { numbers: r.1, ..st }, img));
                    spec_run(env, events, r.2, st2)
                },
                _ => spec_run(env, events, i + 1, spec_start_tag(st, tag)),
            },
            MdEvent::End(tag) => spec_run(env, events, i + 1, spec_end_tag(st, tag)),
            MdEvent::Html(s) => match embed_events_of(s@) {
                None => Err(RenderError::EmbeddedSyntax),
                Some(evs) => match spec_embed_run(env, st, evs, 0) {
                    Err(e) => Err(e),
                    Ok(st2) => spec_run(env, events, i + 1, st2),
                },
            },
            _ => spec_run(env, events, i + 1, spec_plain_event(st, events[i])),
        }
    }
}

#[via_fn]
proof fn spec_run_dec(env: REnv, events: Seq<MdEvent>, i: int, st: RState) {
    if 0 <= i < events.len() {
        match events[i] {
            MdEvent::Start(tag) => match tag {
                MdTag::Image { dest, title } => {
                    lemma_raw_text_bounds(events, i + 1, 0, Seq::empty(), st.numbers);
                },
                _ => {},
            },
            _ => {},
        }
    }
}

/// Closing every element still open at the end of the stream.
pub open spec fn spec_finish(st: RState) -> Seq<SNode>
    decreases st.stack.len(), via spec_finish_dec
{
    if st.stack.len() == 0 {
        st.finished
    } else {
        spec_finish(spec_collapse(st))
    }
}

#[via_fn]
proof fn spec_finish_dec(st: RState) {
    if st.stack.len() > 0 {
        assert(spec_collapse(st).stack.len() == st.stack.len() - 1);
    }
}

/// What rendering an event stream yields: the finished top-level nodes, or
/// the structural error that aborted the render.
pub open spec fn spec_render(env: REnv, events: Seq<MdEvent>) -> Result<Seq<SNode>, RenderError> {
    match spec_run(env, events, 0, spec_init()) {
        Err(e) => Err(e),
        Ok(st) => Ok(spec_finish(st)),
    }
}

/// Copies an attribute list.
fn clone_attrs(v: &Vec<(String, String)>) -> (r: Vec<(String, String)>)
    ensures
        attrs_view(r@) == attrs_view(v@),
{
    let mut r: Vec<(String, String)> = Vec::new();
    let n = v.len();
    let mut i: usize = 0;
    while i < n
        invariant
            n == v@.len(),
            i <= n,
            attrs_view(r@) =~= attrs_view(v@.subrange(0, i as int)),
        decreases n - i,
    {
        let ghost prevv = r@;
        r.push((v[i].0.clone(), v[i].1.clone()));
        proof {
            assert(attrs_view(r@) =~= attrs_view(prevv).push((v@[i as int].0@, v@[i as int].1@)));
            assert(attrs_view(v@.subrange(0, i as int + 1)) =~= attrs_view(
                v@.subrange(0, i as int),
            ).push((v@[i as int].0@, v@[i as int].1@)));
        }
        i = i + 1;
    }
    proof {
        assert(v@.subrange(0, n as int) =~= v@);
        assert(attrs_view(r@) =~= attrs_view(v@));
    }
    r
}

impl Renderer {
    /// Consumes the events of an image's inner content into its alt text.
    fn raw_text(&mut self, events: &Vec<MdEvent>, i: &mut usize) -> (alt: String)
        requires
            *old(i) <= events@.len(),
        ensures
            alt@ == spec_raw_text(events@, *old(i) as int, 0, Seq::empty(), old(self)@.numbers).0,
            final(self)@ == (RState {
                numbers: spec_raw_text(
                    events@,
                    *old(i) as int,
                    0,
                    Seq::empty(),
                    old(self)@.numbers,
                ).1,
                ..old(self)@
            }),
            *final(i) as int == spec_raw_text(
                events@,
                *old(i) as int,
                0,
                Seq::empty(),
                old(self)@.numbers,
            ).2,
            *old(i) <= *final(i) <= events@.len(),
            final(self).renv() == old(self).renv(),
    {
        let ghost target = spec_raw_text(events@, *old(i) as int, 0, Seq::empty(), old(self)@.numbers);
        let ghost start = *old(i) as int;
        let len = events.len();
        let mut out = String::new();
        let mut nest: usize = 0;
        proof {
            lemma_raw_text_bounds(events@, start, 0, Seq::empty(), old(self)@.numbers);
        }
        loop
            invariant
                len == events@.len(),
                *i <= len,
                0 <= start <= *i as int,
                start == *old(i) as int,
                nest <= *i as int - start,
                self.renv() == old(self).renv(),
                self@ == (RState { numbers: self@.numbers, ..old(self)@ }),
                target == spec_raw_text(events@, start, 0, Seq::empty(), old(self)@.numbers),
                target == spec_raw_text(events@, *i as int, nest as int, out@, self@.numbers),
            decreases len - *i,
        {
            if *i >= len {
                proof {
                    assert(target == (out@, self@.numbers, len as int));
                }
                return out;
            }
            let ev = &events[*i];
            match ev {
                MdEvent::Start(_) => {
                    nest = nest + 1;
                    *i = *i + 1;
                },
                MdEvent::End(_) => {
                    if nest == 0 {
                        *i = *i + 1;
                        proof {
                            assert(target == (out@, self@.numbers, *i as int));
                        }
                        return out;
                    } else {
                        nest = nest - 1;
                        *i = *i + 1;
                    }
                },
                MdEvent::Text(t) => {
                    append_html_escaped(&mut out, t.as_str());
                    *i = *i + 1;
                },
                MdEvent::Code(t) => {
                    append_html_escaped(&mut out, t.as_str());
                    *i = *i + 1;
                },
                MdEvent::Html(t) => {
                    append_html_escaped(&mut out, t.as_str());
                    *i = *i + 1;
                },
                MdEvent::SoftBreak => {
                    out.append(" ");
                    *i = *i + 1;
                },
                MdEvent::HardBreak => {
                    out.append(" ");
                    *i = *i + 1;
                },
                MdEvent::Rule => {
                    out.append(" ");
                    *i = *i + 1;
                },
                MdEvent::FootnoteReference(name) => {
                    let n = self.footnote_number(name.as_str());
                    out.append("[");
                    let digits = usize_to_string(n);
                    out.append(digits.as_str());
                    out.append("]");
                    *i = *i + 1;
                },
                MdEvent::TaskListMarker(b) => {
                    if *b {
                        out.append("[x]");
                    } else {
                        out.append("[ ]");
                    }
                    *i = *i + 1;
                },
            }
        }
    }

    /// Drops the innermost open element and its subtree.
    fn drop_top(&mut self)
        requires
            old(self)@.stack.len() > 0,
        ensures
            final(self)@ == spec_drop_top(old(self)@),
            final(self).renv() == old(self).renv(),
    {
        let _ = self.stack.pop();
        proof {
            assert(stack_view(self.stack@) =~= old(self)@.stack.drop_last());
        }
        let n = self.stack.len();
        if n > 0 {
            let empty = self.stack[n - 1].children.len() == 0;
            self.hard_collapse = empty;
            proof {
                crate::tree::lemma_nodes_view_len(self.stack@[n - 1].children@);
                assert(self@ =~= spec_drop_top(old(self)@));
            }
        } else {
            proof {
                assert(self@ =~= spec_drop_top(old(self)@));
            }
        }
    }

    /// Splices the innermost open element's children into its parent.
    fn flatten_top(&mut self)
        requires
            old(self)@.stack.len() > 0,
        ensures
            final(self)@ == spec_flatten(old(self)@),
            final(self).renv() == old(self).renv(),
    {
        let last = self.stack.pop();
        match last {
            Some(last) => {
                let mut cs = last.children;
                match self.stack.pop() {
                    Some(mut top) => {
                        self.hard_collapse = false;
                        let ghost top0 = top;
                        let ghost cs0 = cs@;
                        top.children.append(&mut cs);
                        proof {
                            crate::tree::lemma_nodes_view_add(top0.children@, cs0);
                        }
                        self.stack.push(top);
                        proof {
                            assert(stack_view(self.stack@) =~= old(self)@.stack.drop_last().drop_last().push(
                                elem_view(top),
                            ));
                            assert(elem_view(top) =~~= (SElement {
                                children: old(self)@.stack.drop_last().last().children
                                    + old(self)@.stack.last().children,
                                ..old(self)@.stack.drop_last().last()
                            }));
                            assert(self@ =~~= spec_flatten(old(self)@));
                        }
                    },
                    None => {
                        self.finished.push(Node::List(cs));
                        proof {
                            assert(node_view(Node::List(cs)) == SNode::List(nodes_view(cs@)));
                            assert(finished_view(self.finished@) =~= old(self)@.finished.push(
                                SNode::List(old(self)@.stack.last().children),
                            ));
                            assert(self@ =~~= spec_flatten(old(self)@));
                        }
                    },
                }
            },
            None => {
                proof {
                    assert(false);
                }
            },
        }
    }

    /// Wraps the innermost open element's children in citation markers.
    fn cite_top(&mut self, release: &str, hidden: bool)
        requires
            old(self)@.stack.len() > 0,
        ensures
            final(self)@ == spec_cite(old(self).renv(), old(self)@, release@, hidden),
            final(self).renv() == old(self).renv(),
    {
        let label = self.label_of(release);
        let content_kind = if hidden {
            "excluded-content"
        } else {
            "observed-content"
        };
        let tag_kind = if hidden {
            "excluded-tag"
        } else {
            "observed-tag"
        };
        let mut cite_attrs: Vec<(String, String)> = Vec::new();
        push_attr(&mut cite_attrs, "data-cite-kind", String::from_str(tag_kind));
        push_attr(&mut cite_attrs, "data-cite-tag", label.clone());
        let mut span_cite = make_elem_attrs("span", cite_attrs);
        let ghost span_cite0 = span_cite;
        span_cite.children.push(Node::Text(label.clone()));
        proof {
            lemma_nodes_view_push(span_cite0.children@, span_cite.children@.last());
            assert(elem_view(span_cite) =~~= (SElement {
                name: "span"@,
                attrs: seq![
                    (
                        "data-cite-kind"@,
                        if hidden {
                            "excluded-tag"@
                        } else {
                            "observed-tag"@
                        },
                    ),
                    ("data-cite-tag"@, spec_label(old(self).renv().labels, release@)),
                ],
                children: seq![SNode::Text(spec_label(old(self).renv().labels, release@))],
            }));
        }
        let mut span_attrs: Vec<(String, String)> = Vec::new();
        push_attr(&mut span_attrs, "data-cite-kind", String::from_str(content_kind));
        push_attr(&mut span_attrs, "data-cite-tag", label);
        match self.stack.pop() {
            Some(last) => {
                proof {
                    assert(stack_view(self.stack@) =~= old(self)@.stack.drop_last());
                }
                self.hard_collapse = false;
                let mut kids = last.children;
                let ghost kids0 = kids@;
                kids.push(Node::Element(span_cite));
                proof {
                    lemma_nodes_view_push(kids0, kids@.last());
                }
                let span = Element {
                    name: String::from_str("span"),
                    attrs: span_attrs,
                    children: kids,
                };
                proof {
                    let slabel = spec_label(old(self).renv().labels, release@);
                    assert(attrs_view(span.attrs@) =~= seq![
                        (
                            "data-cite-kind"@,
                            if hidden {
                                "excluded-content"@
                            } else {
                                "observed-content"@
                            },
                        ),
                        ("data-cite-tag"@, slabel),
                    ]);
                    assert(nodes_view(span.children@) =~= old(self)@.stack.last().children + seq![
                        SNode::Element(elem_view(span_cite)),
                    ]);
                    assert(elem_view(span) =~~= (SElement {
                        name: "span"@,
                        attrs: seq![
                            (
                                "data-cite-kind"@,
                                if hidden {
                                    "excluded-content"@
                                } else {
                                    "observed-content"@
                                },
                            ),
                            ("data-cite-tag"@, slabel),
                        ],
                        children: old(self)@.stack.last().children + seq![
                            SNode::Element(
                                SElement {
                                    name: "span"@,
                                    attrs: seq![
                                        (
                                            "data-cite-kind"@,
                                            if hidden {
                                                "excluded-tag"@
                                            } else {
                                                "observed-tag"@
                                            },
                                        ),
                                        ("data-cite-tag"@, slabel),
                                    ],
                                    children: seq![SNode::Text(slabel)],
                                },
                            ),
                        ],
                    }));
                }
                self.push_node(Node::Element(span));
                proof {
                    assert(self@ =~~= spec_cite(old(self).renv(), old(self)@, release@, hidden));
                }
            },
            None => {
                proof {
                    assert(false);
                }
            },
        }
    }

    /// Closes one embedded element.
    fn embed_end(&mut self, name: &str) -> (r: Result<(), RenderError>)
        ensures
            match r {
                Ok(()) => old(self)@.stack.len() > 0 && old(self)@.stack.last().name == name@
                    && final(self)@ == spec_close_embedded(old(self).renv(), old(self)@, name@),
                Err(e) => e == RenderError::MismatchedTag && (old(self)@.stack.len() == 0 || old(
                    self,
                )@.stack.last().name != name@) && final(self)@ == old(self)@,
            },
            final(self).renv() == old(self).renv(),
    {
        let n = self.stack.len();
        if n == 0 {
            return Err(RenderError::MismatchedTag);
        }
        if !str_eq(self.stack[n - 1].name.as_str(), name) {
            return Err(RenderError::MismatchedTag);
        }
        let len = name.unicode_len();
        let is_x = len >= 2 && name.get_char(0) == 'x' && name.get_char(1) == '-';
        let is_o = len >= 2 && name.get_char(0) == 'o' && name.get_char(1) == '-';
        if is_x {
            let release = name.substring_char(2, len);
            if self.observed.contains(release) {
                if self.citations {
                    self.cite_top(release, true);
                } else {
                    self.drop_top();
                }
            } else {
                self.collapse();
            }
        } else if is_o {
            let release = name.substring_char(2, len);
            if self.observed.contains(release) {
                self.flatten_top();
            } else {
                if self.citations {
                    self.cite_top(release, false);
                } else {
                    self.drop_top();
                }
            }
        } else {
            self.collapse();
        }
        Ok(())
    }

    /// Runs the events of one embedded passage.
    fn embed_events(&mut self, evs: &Vec<EmbedEvent>) -> (r: Result<(), RenderError>)
        ensures
            match r {
                Ok(()) => spec_embed_run(old(self).renv(), old(self)@, evs@, 0) == Ok::<
                    RState,
                    RenderError,
                >(final(self)@),
                Err(e) => spec_embed_run(old(self).renv(), old(self)@, evs@, 0) == Err::<
                    RState,
                    RenderError,
                >(e),
            },
            final(self).renv() == old(self).renv(),
    {
        let ghost env = self.renv();
        let ghost st0 = self@;
        let n = evs.len();
        let mut i: usize = 0;
        while i < n
            invariant
                n == evs@.len(),
                i <= n,
                self.renv() == env,
                env == old(self).renv(),
                st0 == old(self)@,
                spec_embed_run(env, st0, evs@, 0) == spec_embed_run(env, self@, evs@, i as int),
            decreases n - i,
        {
            let ghost prev = self@;
            let ghost iold = i as int;
            let ev = &evs[i];
            match ev {
                EmbedEvent::Start { name, attrs } => {
                    let copied = clone_attrs(attrs);
                    self.nest(make_elem_attrs(name.as_str(), copied));
                    i = i + 1;
                    proof {
                        assert(spec_embed_run(env, st0, evs@, 0) == spec_embed_run(
                            env,
                            self@,
                            evs@,
                            i as int,
                        ));
                    }
                },
                EmbedEvent::Text(t) => {
                    self.push_node(Node::Text(t.clone()));
                    i = i + 1;
                    proof {
                        assert(spec_embed_run(env, st0, evs@, 0) == spec_embed_run(
                            env,
                            self@,
                            evs@,
                            i as int,
                        ));
                    }
                },
                EmbedEvent::Empty => {
                    i = i + 1;
                },
                EmbedEvent::Other => {
                    i = i + 1;
                },
                EmbedEvent::End { name } => {
                    match self.embed_end(name.as_str()) {
                        Ok(()) => {
                            i = i + 1;
                            proof {
                                assert(spec_embed_run(env, st0, evs@, 0) == spec_embed_run(
                                    env,
                                    self@,
                                    evs@,
                                    i as int,
                                ));
                            }
                        },
                        Err(e) => {
                            proof {
                                assert(spec_embed_run(env, prev, evs@, iold) == Err::<
                                    RState,
                                    RenderError,
                                >(e));
                            }
                            return Err(e);
                        },
                    }
                },
            }
        }
        Ok(())
    }

    /// Runs the whole event stream.
    fn run(&mut self, events: &Vec<MdEvent>) -> (r: Result<(), RenderError>)
        ensures
            match r {
                Ok(()) => spec_run(old(self).renv(), events@, 0, old(self)@) == Ok::<
                    RState,
                    RenderError,
                >(final(self)@),
                Err(e) => spec_run(old(self).renv(), events@, 0, old(self)@) == Err::<
                    RState,
                    RenderError,
                >(e),
            },
            final(self).renv() == old(self).renv(),
    {
        let ghost env = self.renv();
        let ghost st0 = self@;
        let len = events.len();
        let mut i: usize = 0;
        while i < len
            invariant
                len == events@.len(),
                i <= len,
                self.renv() == env,
                env == old(self).renv(),
                st0 == old(self)@,
                spec_run(env, events@, 0, st0) == spec_run(env, events@, i as int, self@),
            decreases len - i,
        {
            let ghost prev = self@;
            let ghost iold = i as int;
            let ev = &events[i];
            match ev {
                MdEvent::Start(tag) => {
                    match tag {
                        MdTag::Image { dest, title } => {
                            let ghost r = spec_raw_text(events@, iold + 1, 0, Seq::empty(), prev.numbers);
                            let mut j: usize = i + 1;
                            let alt = self.raw_text(events, &mut j);
                            let mut attrs: Vec<(String, String)> = Vec::new();
                            push_attr(&mut attrs, "src", escape_href_str(dest.as_str()));
                            if alt.as_str().unicode_len() > 0 {
                                push_attr(&mut attrs, "alt", alt);
                            }
                            if title.as_str().unicode_len() > 0 {
                                push_attr(
                                    &mut attrs,
                                    "title",
                                    crate::text::html_escape(title.as_str()),
                                );
                            }
                            proof {
                                assert(attrs_view(attrs@) =~= spec_img_attrs(dest@, r.0, title@));
                            }
                            self.nest(make_elem_attrs("img", attrs));
                            self.collapse();
                            i = j;
                            proof {
                                assert(events@[iold] == MdEvent::Start(MdTag::Image {
                                    dest: *dest,
                                    title: *title,
                                }));
                                assert(self@ == spec_collapse(spec_nest_elem(
                                    RState { numbers: r.1, ..prev },
                                    SElement {
                                        name: "img"@,
                                        attrs: spec_img_attrs(dest@, r.0, title@),
                                        children: Seq::empty(),
                                    },
                                )));
                                assert(spec_run(env, events@, 0, st0) == spec_run(
                                    env,
                                    events@,
                                    i as int,
                                    self@,
                                ));
                            }
                        },
                        _ => {
                            self.start_tag(tag);
                            i = i + 1;
                            proof {
                                assert(spec_run(env, events@, 0, st0) == spec_run(
                                    env,
                                    events@,
                                    i as int,
                                    self@,
                                ));
                            }
                        },
                    }
                },
                MdEvent::End(tag) => {
                    self.end_tag(tag);
                    i = i + 1;
                    proof {
                        assert(spec_run(env, events@, 0, st0) == spec_run(
                            env,
                            events@,
                            i as int,
                            self@,
                        ));
                    }
                },
                MdEvent::Html(s) => {
                    match parse_embedded(s.as_str()) {
                        Err(()) => {
                            proof {
                                assert(spec_run(env, events@, iold, prev) == Err::<
                                    RState,
                                    RenderError,
                                >(RenderError::EmbeddedSyntax));
                            }
                            return Err(RenderError::EmbeddedSyntax);
                        },
                        Ok(inner) => {
                            let res = self.embed_events(&inner);
                            match res {
                                Err(e) => {
                                    proof {
                                        assert(spec_run(env, events@, iold, prev) == Err::<
                                            RState,
                                            RenderError,
                                        >(e));
                                    }
                                    return Err(e);
                                },
                                Ok(()) => {
                                    i = i + 1;
                                    proof {
                                        assert(spec_run(env, events@, 0, st0) == spec_run(
                                            env,
                                            events@,
                                            i as int,
                                            self@,
                                        ));
                                    }
                                },
                            }
                        },
                    }
                },
                _ => {
                    self.plain_event(ev);
                    i = i + 1;
                    proof {
                        assert(spec_plain_event(prev, events@[iold]) == self@);
                        assert(spec_run(env, events@, 0, st0) == spec_run(
                            env,
                            events@,
                            i as int,
                            self@,
                        ));
                    }
                },
            }
        }
        Ok(())
    }

    /// Closes everything still open and hands the finished nodes out.
    fn into_nodes(self) -> (r: Vec<Node>)
        ensures
            finished_view(r@) == spec_finish(self@),
    {
        let mut me = self;
        let ghost st0 = me@;
        while me.stack.len() > 0
            invariant
                spec_finish(st0) == spec_finish(me@),
            decreases me.stack@.len(),
        {
            me.collapse();
        }
        me.finished
    }
}


/// The citation label table for one continuity: each release's reference
/// name mapped to its display name.
pub open spec fn spec_citation_labels(m: Manifest, cont: Seq<char>) -> Seq<(Seq<char>, Seq<char>)> {
    spec_releases(m, cont).map_values(
        |rel: crate::manifest::Release| (rel.reference_name@, spec_release_display_name(rel)),
    )
}

/// Builds the citation label table for one continuity.
pub fn citation_labels(manifest: &Manifest, continuity_reference: &str) -> (r: Vec<
    (String, String),
>)
    ensures
        labels_view(r@) == spec_citation_labels(*manifest, continuity_reference@),
{
    let mut out: Vec<(String, String)> = Vec::new();
    match manifest.releases(continuity_reference) {
        None => {
            proof {
                assert(labels_view(out@) =~= spec_citation_labels(
                    *manifest,
                    continuity_reference@,
                ));
            }
        },
        Some(rs) => {
            let n = rs.len();
            let mut i: usize = 0;
            while i < n
                invariant
                    n == rs@.len(),
                    i <= n,
                    rs@ == spec_releases(*manifest, continuity_reference@),
                    labels_view(out@) =~= rs@.subrange(0, i as int).map_values(
                        |rel: crate::manifest::Release|
                            (rel.reference_name@, spec_release_display_name(rel)),
                    ),
                decreases n - i,
            {
                let ghost prev = out@;
                let rel = &rs[i];
                out.push((rel.reference_name.clone(), rel.display_name()));
                proof {
                    assert(labels_view(out@) =~= labels_view(prev).push(
                        (
                            rs@[i as int].reference_name@,
                            spec_release_display_name(rs@[i as int]),
                        ),
                    ));
                    assert(rs@.subrange(0, i as int + 1).map_values(
                        |rel: crate::manifest::Release|
                            (rel.reference_name@, spec_release_display_name(rel)),
                    ) =~= rs@.subrange(0, i as int).map_values(
                        |rel: crate::manifest::Release|
                            (rel.reference_name@, spec_release_display_name(rel)),
                    ).push(
                        (
                            rs@[i as int].reference_name@,
                            spec_release_display_name(rs@[i as int]),
                        ),
                    ));
                }
                i = i + 1;
            }
            proof {
                assert(rs@.subrange(0, n as int) =~= rs@);
            }
        },
    }
    out
}

/// Renders a parsed event stream into a document tree.
pub fn render_events(
    events: &Vec<MdEvent>,
    observed: ObservedSet,
    citations: bool,
    labels: Vec<(String, String)>,
) -> (r: Result<Vec<Node>, RenderError>)
    ensures
        ({
            let env = REnv { observed: observed@, citations, labels: labels_view(labels@) };
            match r {
                Ok(nodes) => spec_render(env, events@) == Ok::<Seq<SNode>, RenderError>(
                    finished_view(nodes@),
                ),
                Err(e) => spec_render(env, events@) == Err::<Seq<SNode>, RenderError>(e),
            }
        }),
{
    let mut renderer = Renderer::new(observed, citations, labels);
    match renderer.run(events) {
        Err(e) => Err(e),
        Ok(()) => Ok(renderer.into_nodes()),
    }
}

/// Renders markup text into a document tree: the text is parsed into
/// events and those are rendered against the observed set, the citation
/// flag, and the citation labels.
pub fn render_markup(
    text: &str,
    observed: ObservedSet,
    citations: bool,
    labels: Vec<(String, String)>,
) -> (r: Result<Vec<Node>, RenderError>)
    ensures
        ({
            let env = REnv { observed: observed@, citations, labels: labels_view(labels@) };
            match r {
                Ok(nodes) => spec_render(env, md_events_of(text@)) == Ok::<Seq<SNode>, RenderError>(
                    finished_view(nodes@),
                ),
                Err(e) => spec_render(env, md_events_of(text@)) == Err::<Seq<SNode>, RenderError>(
                    e,
                ),
            }
        }),
{
    let events = parse_markup(text);
    render_events(&events, observed, citations, labels)
}

/// Rendering is a pure function of the markup text, the observed set, the
/// citation flag and the labels: two renders of the same inputs yield
/// structurally identical trees. Footnote numbering restarts fresh on each
/// call, so it cannot make two runs differ.
pub proof fn lemma_render_deterministic(
    env: REnv,
    text: Seq<char>,
    r1: Result<Seq<SNode>, RenderError>,
    r2: Result<Seq<SNode>, RenderError>,
)
    requires
        r1 == spec_render(env, md_events_of(text)),
        r2 == spec_render(env, md_events_of(text)),
    ensures
        r1 == r2,
{
}

/// Closing a conditional `o-` region whose release is unobserved, with
/// citation mode off, drops the region: nothing reaches the finished
/// top-level sequence, the region leaves the stack, and a parent emptied
/// by the drop becomes collapse-eligible.
pub proof fn lemma_unobserved_region_dropped(env: REnv, st: RState, name: Seq<char>)
    requires
        !env.citations,
        spec_has_mode_prefix(name, 'o'),
        !env.observed.contains(name.subrange(2, name.len() as int)),
        st.stack.len() > 0,
    ensures
        spec_close_embedded(env, st, name) == spec_drop_top(st),
        spec_close_embedded(env, st, name).finished == st.finished,
        spec_close_embedded(env, st, name).stack == st.stack.drop_last(),
        st.stack.len() > 1 && st.stack[st.stack.len() - 2].children.len() == 0
            ==> spec_close_embedded(env, st, name).hard_collapse,
{
    assert(name[0] == 'o');
    assert(!(name[0] == 'x'));
}

/// A collapse-eligible element that stayed empty is dropped with its
/// parent frame: closing it emits nothing, so a wrapper whose sole content
/// was a dropped region never appears in the tree. Content already
/// finished at top level is never taken back.
pub proof fn lemma_hard_collapse_drops_empty_parent(st: RState)
    requires
        st.hard_collapse,
        st.stack.len() > 0,
        st.stack.last().children.len() == 0,
    ensures
        spec_collapse(st).finished == st.finished,
        spec_collapse(st).stack == st.stack.drop_last(),
{
}

/// Appending an entry for a name not yet in the table makes later lookups
/// of that name find it.
pub proof fn lemma_lookup_push(ns: Seq<(Seq<char>, int)>, name: Seq<char>, v: int, i: int)
    requires
        0 <= i <= ns.len(),
        spec_num_lookup_from(ns, name, i) is None,
    ensures
        spec_num_lookup_from(ns.push((name, v)), name, i) == Some(v),
    decreases ns.len() - i,
{
    let pushed = ns.push((name, v));
    if i < ns.len() {
        lemma_lookup_push(ns, name, v, i + 1);
    } else {
        assert(pushed[i] == (name, v));
    }
}

/// Footnote numbers are stable: asking again for a name that has already
/// been assigned a number yields the same number and leaves the table
/// unchanged.
pub proof fn lemma_footnote_number_stable(ns: Seq<(Seq<char>, int)>, name: Seq<char>)
    ensures
        spec_footnote(spec_footnote(ns, name).1, name).0 == spec_footnote(ns, name).0,
        spec_footnote(spec_footnote(ns, name).1, name).1 == spec_footnote(ns, name).1,
{
    match spec_num_lookup_from(ns, name, 0) {
        Some(n) => {},
        None => {
            lemma_lookup_push(ns, name, spec_fresh_number(ns), 0);
        },
    }
}


} // verus!
