use story_wiki::manifest::{Continuity, Manifest, Page, Release};
use story_wiki::tracker::{active_release, observed_releases_references, unmatched_selections};

fn release(name: &str) -> Release {
    Release { reference_name: name.to_string(), display_name: None, begins_group: None }
}

fn continuity(name: &str, prefix: &str) -> Continuity {
    Continuity {
        reference_name: name.to_string(),
        display_name: None,
        url_prefix: None,
        prefix: prefix.to_string(),
    }
}

fn empty_page(url: &str) -> Page {
    Page {
        page_url: url.to_string(),
        resource_path: format!("/{url}.md"),
        display_name: None,
        show_cond: vec![],
        keywords: String::new(),
        keywords_cond: vec![],
        title_peers: vec![],
        title_peers_cond: vec![],
        categories: vec![],
        categories_cond: vec![],
    }
}

fn two_release_manifest() -> Manifest {
    Manifest {
        title: "Wiki".to_string(),
        continuities: vec![continuity("main", "m")],
        releases: vec![("main".to_string(), vec![release("m1"), release("m2")])],
        pages: vec![("main".to_string(), vec![empty_page("start")])],
    }
}

#[test]
fn selection_defaults_to_first_release() {
    let m = two_release_manifest();
    let sels: Vec<(String, String)> = vec![];
    assert_eq!(active_release(&m, &sels, "main"), Some("m1"));
}

#[test]
fn explicit_selection_wins() {
    let m = two_release_manifest();
    let sels = vec![("main".to_string(), "m2".to_string())];
    assert_eq!(active_release(&m, &sels, "main"), Some("m2"));
}

#[test]
fn observed_set_is_inclusive_prefix_of_releases() {
    let m = two_release_manifest();
    let sels = vec![("main".to_string(), "m2".to_string())];
    let obs = observed_releases_references(&m, &sels);
    assert!(obs.contains("m1"));
    assert!(obs.contains("m2"));

    let sels1 = vec![("main".to_string(), "m1".to_string())];
    let obs1 = observed_releases_references(&m, &sels1);
    assert!(obs1.contains("m1"));
    assert!(!obs1.contains("m2"));
}

#[test]
fn later_selection_observes_a_superset() {
    let m = two_release_manifest();
    let early = observed_releases_references(&m, &vec![("main".to_string(), "m1".to_string())]);
    let late = observed_releases_references(&m, &vec![("main".to_string(), "m2".to_string())]);
    for r in ["m1"] {
        assert!(early.contains(r));
        assert!(late.contains(r));
    }
    assert!(late.contains("m2"));
}

#[test]
fn unmatched_selection_contributes_nothing_and_is_reported() {
    let m = two_release_manifest();
    let sels = vec![("main".to_string(), "zz".to_string())];
    let obs = observed_releases_references(&m, &sels);
    assert!(!obs.contains("m1"));
    assert!(!obs.contains("m2"));
    assert!(!obs.contains("zz"));
    assert_eq!(unmatched_selections(&m, &sels), vec!["main".to_string()]);
}

#[test]
fn matched_selection_is_not_reported() {
    let m = two_release_manifest();
    let sels = vec![("main".to_string(), "m1".to_string())];
    assert!(unmatched_selections(&m, &sels).is_empty());
}

#[test]
fn observed_set_unions_continuities() {
    let m = Manifest {
        title: "Wiki".to_string(),
        continuities: vec![continuity("main", "m"), continuity("branch", "b")],
        releases: vec![
            ("main".to_string(), vec![release("m1"), release("m2")]),
            ("branch".to_string(), vec![release("b1")]),
        ],
        pages: vec![],
    };
    let sels = vec![("main".to_string(), "m2".to_string())];
    let obs = observed_releases_references(&m, &sels);
    assert!(obs.contains("m1"));
    assert!(obs.contains("m2"));
    assert!(obs.contains("b1"));
}
