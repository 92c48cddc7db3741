use story_wiki::manifest::{CategoryCond, Continuity, KeywordsCond, Manifest, Page, Release};
use story_wiki::observed::ObservedSet;

fn observed(items: &[&str]) -> ObservedSet {
    let mut set = ObservedSet::new();
    for item in items {
        set.push(item.to_string());
    }
    set
}

fn release(name: &str) -> Release {
    Release { reference_name: name.to_string(), display_name: None, begins_group: None }
}

fn sample() -> Manifest {
    Manifest {
        title: "My Wiki".to_string(),
        continuities: vec![
            Continuity {
                reference_name: "main_story".to_string(),
                display_name: None,
                url_prefix: Some("m".to_string()),
                prefix: "m".to_string(),
            },
            Continuity {
                reference_name: "branch".to_string(),
                display_name: Some("The Branch".to_string()),
                url_prefix: None,
                prefix: "b".to_string(),
            },
        ],
        releases: vec![("main_story".to_string(), vec![release("m1"), release("m2")])],
        pages: vec![(
            "main_story".to_string(),
            vec![Page {
                page_url: "first_page".to_string(),
                resource_path: "/first.md".to_string(),
                display_name: None,
                show_cond: vec![],
                keywords: "alpha beta".to_string(),
                keywords_cond: vec![],
                title_peers: vec![],
                title_peers_cond: vec![],
                categories: vec!["Lore".to_string()],
                categories_cond: vec![CategoryCond {
                    category: "Spoilers".to_string(),
                    cond: vec!["o-m2".to_string()],
                }],
            }],
        )],
    }
}

#[test]
fn lookups_find_configured_entries() {
    let m = sample();
    assert_eq!(m.title(), "My Wiki");
    assert!(m.continuity("main_story").is_some());
    assert!(m.continuity("nope").is_none());
    assert!(m.release("main_story", "m2").is_some());
    assert!(m.release("main_story", "m9").is_none());
    assert!(m.page("main_story", "first_page").is_some());
    assert!(m.page("main_story", "other").is_none());
    assert!(m.pages("branch").is_none());
}

#[test]
fn defaults_are_the_first_entries() {
    let m = sample();
    assert_eq!(m.default_continuity().unwrap().reference_name(), "main_story");
    assert_eq!(m.default_release("main_story").unwrap().reference_name(), "m1");
    assert_eq!(m.default_page("main_story").unwrap().page_url(), "first_page");
    assert!(m.default_release("branch").is_none());
}

#[test]
fn multiplicity_checks_count_entries() {
    let m = sample();
    assert!(m.has_multiple_continuities());
    assert!(m.has_multiple_releases());
}

#[test]
fn display_names_fall_back_to_title_case() {
    let m = sample();
    let c = m.continuity("main_story").unwrap();
    assert_eq!(c.display_name(), "Main Story");
    let b = m.continuity("branch").unwrap();
    assert_eq!(b.display_name(), "The Branch");
    let p = m.page("main_story", "first_page").unwrap();
    assert_eq!(p.display_name(), "First Page");
}

#[test]
fn url_prefix_falls_back_to_reference_name() {
    let m = sample();
    assert_eq!(m.continuity("main_story").unwrap().url_prefix(), "m");
    assert_eq!(m.continuity("branch").unwrap().url_prefix(), "branch");
    assert!(m.continuity_from_url_prefix("m").is_some());
    assert!(m.continuity_from_url_prefix("branch").is_some());
    assert!(m.continuity_from_url_prefix("x").is_none());
}

#[test]
fn page_visibility_follows_conditions() {
    let mut p = sample().pages.remove(0).1.remove(0);
    p.show_cond = vec!["o-m1".to_string(), "x-m2".to_string()];
    assert_eq!(p.should_show(&observed(&["m1"]), "m"), Ok(true));
    assert_eq!(p.should_show(&observed(&["m1", "m2"]), "m"), Ok(false));
    assert_eq!(p.should_show(&observed(&[]), "m"), Ok(false));
}

#[test]
fn conditional_categories_activate_with_observations() {
    let m = sample();
    let p = m.page("main_story", "first_page").unwrap();
    let before = p.categories(&observed(&["m1"]), "m").unwrap();
    assert_eq!(before, vec!["Lore".to_string()]);
    let after = p.categories(&observed(&["m1", "m2"]), "m").unwrap();
    assert_eq!(after, vec!["Lore".to_string(), "Spoilers".to_string()]);
}

#[test]
fn keywords_are_tokenized_lowercase() {
    let m = sample();
    let p = m.page("main_story", "first_page").unwrap();
    let kws = p.keywords(&observed(&[]), "m").unwrap();
    assert_eq!(kws, vec!["alpha".to_string(), "beta".to_string()]);
}

#[test]
fn begins_group_distinguishes_labels_from_endings() {
    let mut r = release("m1");
    assert_eq!(r.begins_group(), None);
    r.begins_group = Some(String::new());
    assert_eq!(r.begins_group(), Some(None));
    r.begins_group = Some("Season One".to_string());
    assert_eq!(r.begins_group(), Some(Some("Season One")));
}

#[test]
fn keywords_form_a_set_without_repeats() {
    let mut p = sample().pages.remove(0).1.remove(0);
    p.keywords = "alpha beta".to_string();
    p.keywords_cond = vec![KeywordsCond {
        keywords: "beta gamma".to_string(),
        cond: vec![],
    }];
    let kws = p.keywords(&observed(&[]), "m").unwrap();
    assert_eq!(
        kws,
        vec!["alpha".to_string(), "beta".to_string(), "gamma".to_string()]
    );
}
