use story_wiki::manifest::{Continuity, Manifest, Release};
use story_wiki::observed::ObservedSet;
use story_wiki::render::{citation_labels, render_markup, RenderError};
use story_wiki::tracker::observed_releases_references;
use story_wiki::tree::Node;

fn release(name: &str, display: Option<&str>) -> Release {
    Release {
        reference_name: name.to_string(),
        display_name: display.map(|d| d.to_string()),
        begins_group: None,
    }
}

fn manifest() -> Manifest {
    Manifest {
        title: "Wiki".to_string(),
        continuities: vec![Continuity {
            reference_name: "main".to_string(),
            display_name: None,
            url_prefix: None,
            prefix: "m".to_string(),
        }],
        releases: vec![(
            "main".to_string(),
            vec![release("m1", Some("Mainline One")), release("m2", Some("Mainline Two"))],
        )],
        pages: vec![],
    }
}

fn observed_for(selection: &str) -> ObservedSet {
    let m = manifest();
    let sels = vec![("main".to_string(), selection.to_string())];
    observed_releases_references(&m, &sels)
}

fn labels() -> Vec<(String, String)> {
    citation_labels(&manifest(), "main")
}

fn collect_text(nodes: &[Node], out: &mut String) {
    for n in nodes {
        match n {
            Node::Text(t) => out.push_str(t),
            Node::Element(e) => collect_text(&e.children, out),
            Node::List(l) => collect_text(l, out),
        }
    }
}

fn text_of(nodes: &[Node]) -> String {
    let mut s = String::new();
    collect_text(nodes, &mut s);
    s
}

fn node_eq(a: &Node, b: &Node) -> bool {
    match (a, b) {
        (Node::Text(x), Node::Text(y)) => x == y,
        (Node::List(x), Node::List(y)) => nodes_eq(x, y),
        (Node::Element(x), Node::Element(y)) => {
            x.name == y.name && x.attrs == y.attrs && nodes_eq(&x.children, &y.children)
        }
        _ => false,
    }
}

fn nodes_eq(a: &[Node], b: &[Node]) -> bool {
    a.len() == b.len() && a.iter().zip(b.iter()).all(|(x, y)| node_eq(x, y))
}

fn find_elements<'a>(nodes: &'a [Node], name: &str, out: &mut Vec<&'a story_wiki::tree::Element>) {
    for n in nodes {
        match n {
            Node::Element(e) => {
                if e.name == name {
                    out.push(e);
                }
                find_elements(&e.children, name, out);
            }
            Node::List(l) => find_elements(l, name, out),
            Node::Text(_) => {}
        }
    }
}

const PAGE: &str = "<o-m2>New</o-m2><x-m1>Old</x-m1>";

#[test]
fn selecting_the_later_release_shows_only_the_new_text() {
    let tree = render_markup(PAGE, observed_for("m2"), false, labels()).unwrap();
    assert_eq!(text_of(&tree), "New");
}

#[test]
fn selecting_the_earlier_release_hides_both_regions() {
    // With m1 selected the observed set is {m1}: the o-m2 region is not yet
    // observed and drops, and the x-m1 region is already observed and drops
    // too, so nothing remains.
    let tree = render_markup(PAGE, observed_for("m1"), false, labels()).unwrap();
    assert_eq!(text_of(&tree), "");
}

#[test]
fn citation_mode_wraps_superseded_content() {
    let tree = render_markup(PAGE, observed_for("m2"), true, labels()).unwrap();
    let mut spans = Vec::new();
    find_elements(&tree, "span", &mut spans);
    let content = spans
        .iter()
        .find(|e| {
            e.attrs
                .iter()
                .any(|(k, v)| k == "data-cite-kind" && v == "excluded-content")
        })
        .expect("excluded-content wrapper");
    assert!(content
        .attrs
        .iter()
        .any(|(k, v)| k == "data-cite-tag" && v == "Mainline One"));
    let mut inner = String::new();
    collect_text(&content.children, &mut inner);
    assert!(inner.starts_with("Old"));
    let tag_label = spans
        .iter()
        .find(|e| {
            e.attrs
                .iter()
                .any(|(k, v)| k == "data-cite-kind" && v == "excluded-tag")
        })
        .expect("excluded-tag label");
    let mut label_text = String::new();
    collect_text(&tag_label.children, &mut label_text);
    assert_eq!(label_text, "Mainline One");
}

#[test]
fn unknown_release_cited_by_raw_id() {
    let tree = render_markup(
        "<x-m9>Gone</x-m9>",
        {
            let mut obs = ObservedSet::new();
            obs.push("m9".to_string());
            obs
        },
        true,
        labels(),
    )
    .unwrap();
    let mut spans = Vec::new();
    find_elements(&tree, "span", &mut spans);
    assert!(spans
        .iter()
        .any(|e| e.attrs.iter().any(|(k, v)| k == "data-cite-tag" && v == "m9")));
}

#[test]
fn rendering_is_deterministic() {
    let t1 = render_markup(PAGE, observed_for("m2"), true, labels()).unwrap();
    let t2 = render_markup(PAGE, observed_for("m2"), true, labels()).unwrap();
    assert!(nodes_eq(&t1, &t2));
}

#[test]
fn a_wrapper_emptied_by_a_dropped_region_collapses() {
    let tree = render_markup("*<o-m2>gone</o-m2>*", observed_for("m1"), false, labels()).unwrap();
    let mut ems = Vec::new();
    find_elements(&tree, "em", &mut ems);
    assert!(ems.is_empty());
    assert_eq!(text_of(&tree), "");
}

#[test]
fn footnote_numbers_follow_first_sight_and_repeat() {
    let tree = render_markup(
        "a[^a] b[^b] c[^a]\n\n[^a]: first\n\n[^b]: second\n",
        observed_for("m1"),
        false,
        labels(),
    )
    .unwrap();
    let mut sups = Vec::new();
    find_elements(&tree, "sup", &mut sups);
    let numbers: Vec<String> = sups
        .iter()
        .filter(|e| {
            e.attrs
                .iter()
                .any(|(k, v)| k == "class" && v == "footnote-reference")
        })
        .map(|e| {
            let mut t = String::new();
            collect_text(&e.children, &mut t);
            t
        })
        .collect();
    assert_eq!(numbers, vec!["1".to_string(), "2".to_string(), "1".to_string()]);
}

#[test]
fn markdown_structure_is_rendered() {
    let tree = render_markup("# Title\n\nSome *emphasis* here.", observed_for("m1"), false, labels())
        .unwrap();
    let mut h1 = Vec::new();
    find_elements(&tree, "h1", &mut h1);
    assert_eq!(h1.len(), 1);
    let mut ems = Vec::new();
    find_elements(&tree, "em", &mut ems);
    assert_eq!(ems.len(), 1);
    assert_eq!(text_of(&tree), "TitleSome emphasis here.");
}

#[test]
fn link_destinations_are_escaped() {
    let tree = render_markup("[go](a&b)", observed_for("m1"), false, labels()).unwrap();
    let mut links = Vec::new();
    find_elements(&tree, "a", &mut links);
    assert!(links[0]
        .attrs
        .iter()
        .any(|(k, v)| k == "href" && v == "a&amp;b"));
}

#[test]
fn plain_elements_pass_through_unchanged() {
    let tree = render_markup("<b>bold</b>", observed_for("m1"), false, labels()).unwrap();
    let mut bolds = Vec::new();
    find_elements(&tree, "b", &mut bolds);
    assert_eq!(bolds.len(), 1);
    assert_eq!(text_of(&tree), "bold");
}

#[test]
fn a_mismatched_embedded_end_tag_aborts_the_render() {
    let r = render_markup("<x-m1>text</o-m2>", observed_for("m1"), false, labels());
    assert_eq!(r.unwrap_err(), RenderError::MismatchedTag);
}

#[test]
fn an_end_tag_closing_nothing_aborts_the_render() {
    let r = render_markup("</x-m1>", observed_for("m1"), false, labels());
    assert_eq!(r.unwrap_err(), RenderError::MismatchedTag);
}

#[test]
fn an_unparsable_embedded_passage_aborts_the_render() {
    let r = render_markup("<a =\"v\">broken</a>", observed_for("m1"), false, labels());
    assert!(r.is_err());
}
