//! The document tree the renderer produces.
//!
//! A node is an element (tag name, ordered attributes, ordered children), a
//! text run, or a fragment list spliced in at top level. `SNode` / `SElement`
//! are the spec-level models the renderer's contracts speak of.

use vstd::prelude::*;

verus! {

/// Spec model of an element.
#[verifier::ext_equal]
pub struct SElement {
    pub name: Seq<char>,
    pub attrs: Seq<(Seq<char>, Seq<char>)>,
    pub children: Seq<SNode>,
}

/// Spec model of a document node.
#[verifier::ext_equal]
pub enum SNode {
    Element(SElement),
    Text(Seq<char>),
    List(Seq<SNode>),
}

/// An element: tag name, attributes in order, children in order.
#[derive(Debug)]
pub struct Element {
    pub name: String,
    pub attrs: Vec<(String, String)>,
    pub children: Vec<Node>,
}

/// A document node.
#[derive(Debug)]
pub enum Node {
    Element(Element),
    Text(String),
    List(Vec<Node>),
}

/// The view of an attribute list.
pub open spec fn attrs_view(attrs: Seq<(String, String)>) -> Seq<(Seq<char>, Seq<char>)> {
    attrs.map_values(|p: (String, String)| (p.0@, p.1@))
}

/// The view of an element.
pub open spec fn elem_view(e: Element) -> SElement
    decreases e,
{
    SElement { name: e.name@, attrs: attrs_view(e.attrs@), children: nodes_view(e.children@) }
}

/// The view of a node.
pub open spec fn node_view(n: Node) -> SNode
    decreases n,
{
    match n {
        Node::Element(e) => SNode::Element(elem_view(e)),
        Node::Text(t) => SNode::Text(t@),
        Node::List(l) => SNode::List(nodes_view(l@)),
    }
}

/// The view of a node sequence.
pub open spec fn nodes_view(s: Seq<Node>) -> Seq<SNode>
    decreases s,
{
    if s.len() == 0 {
        Seq::empty()
    } else {
        nodes_view(s.drop_last()).push(node_view(s.last()))
    }
}

/// `nodes_view` maps the sequence element by element.
pub proof fn lemma_nodes_view_len(s: Seq<Node>)
    ensures
        nodes_view(s).len() == s.len(),
        forall|i: int| 0 <= i < s.len() ==> nodes_view(s)[i] == node_view(#[trigger] s[i]),
    decreases s,
{
    if s.len() > 0 {
        lemma_nodes_view_len(s.drop_last());
        assert forall|i: int| 0 <= i < s.len() implies nodes_view(s)[i] == node_view(
            #[trigger] s[i],
        ) by {
            if i < s.len() - 1 {
                assert(nodes_view(s)[i] == nodes_view(s.drop_last())[i]);
                assert(s.drop_last()[i] == s[i]);
            } else {
                assert(s.last() == s[i]);
                assert(nodes_view(s)[i] == node_view(s.last()));
            }
        }
    }
}

/// Appending a node appends its view.
pub proof fn lemma_nodes_view_push(s: Seq<Node>, n: Node)
    ensures
        nodes_view(s.push(n)) == nodes_view(s).push(node_view(n)),
{
    let p = s.push(n);
    assert(p.drop_last() =~= s);
    assert(p.last() == n);
}

/// Concatenation of node sequences concatenates their views.
pub proof fn lemma_nodes_view_add(a: Seq<Node>, b: Seq<Node>)
    ensures
        nodes_view(a + b) == nodes_view(a) + nodes_view(b),
    decreases b.len(),
{
    if b.len() == 0 {
        assert(a + b =~= a);
        assert(nodes_view(a) + nodes_view(b) =~= nodes_view(a));
    } else {
        lemma_nodes_view_add(a, b.drop_last());
        assert((a + b).drop_last() =~= a + b.drop_last());
        assert((a + b).last() == b.last());
        lemma_nodes_view_push(a + b.drop_last(), b.last());
        assert(nodes_view(a + b) =~= nodes_view(a) + nodes_view(b)) by {
            assert(nodes_view(a + b) == nodes_view(a + b.drop_last()).push(node_view(b.last())));
            assert(nodes_view(b) == nodes_view(b.drop_last()).push(node_view(b.last())));
        }
    }
}

} // verus!
