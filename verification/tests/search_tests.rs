use story_wiki::manifest::{KeywordsCond, Page, TitlePeerCond};
use story_wiki::observed::ObservedSet;
use story_wiki::search::{cleanup, search, tokenize};

fn observed(items: &[&str]) -> ObservedSet {
    let mut set = ObservedSet::new();
    for item in items {
        set.push(item.to_string());
    }
    set
}

fn page(url: &str, title: &str) -> Page {
    Page {
        page_url: url.to_string(),
        resource_path: format!("/{url}.md"),
        display_name: Some(title.to_string()),
        show_cond: vec![],
        keywords: String::new(),
        keywords_cond: vec![],
        title_peers: vec![],
        title_peers_cond: vec![],
        categories: vec![],
        categories_cond: vec![],
    }
}

#[test]
fn cleanup_replaces_non_word_characters() {
    assert_eq!(cleanup("a-b,c'd"), "a b c'd");
}

#[test]
fn tokenize_splits_and_lowercases() {
    let toks = tokenize("  HeLLo  WoRLD ");
    assert_eq!(toks, vec!["hello".to_string(), "world".to_string()]);
}

#[test]
fn title_match_scores_with_squared_weight() {
    let pages = vec![page("new-page", "New Page"), page("old-page", "Old Page")];
    let out = search("new", &pages, &observed(&[]), "m").unwrap();
    assert_eq!(out.exact, None);
    assert_eq!(out.hits.len(), 1);
    assert_eq!(out.hits[0].page_url, "new-page");
    assert_eq!(out.hits[0].title, "New Page");
    assert_eq!(out.hits[0].score, 2);
}

#[test]
fn results_come_back_ascending_by_score() {
    let mut kw = page("kw", "Something Else");
    kw.keywords = "guide".to_string();
    let pages = vec![page("guide", "Guide"), kw];
    let out = search("guide", &pages, &observed(&[]), "m").unwrap();
    assert_eq!(out.hits.len(), 2);
    assert!(out.hits[0].score <= out.hits[1].score);
    assert_eq!(out.hits[0].page_url, "kw");
    assert_eq!(out.hits[0].score, 1);
    assert_eq!(out.hits[1].page_url, "guide");
    assert_eq!(out.hits[1].score, 2);
}

#[test]
fn exact_title_match_navigates() {
    let pages = vec![page("new-page", "New Page")];
    let out = search("new page", &pages, &observed(&[]), "m").unwrap();
    assert_eq!(out.exact, Some("new-page".to_string()));
}

#[test]
fn exact_url_key_match_navigates() {
    let pages = vec![page("new-page", "Something")];
    let out = search("new page", &pages, &observed(&[]), "m").unwrap();
    assert_eq!(out.exact, Some("new-page".to_string()));
}

#[test]
fn alias_titles_score_and_navigate() {
    let mut p = page("hero", "The Hero");
    p.title_peers = vec!["Protagonist".to_string()];
    let pages = vec![p];
    let out = search("protagonist", &pages, &observed(&[]), "m").unwrap();
    assert_eq!(out.exact, Some("hero".to_string()));
    assert_eq!(out.hits.len(), 1);
    assert_eq!(out.hits[0].score, 2);
}

#[test]
fn conditional_keywords_only_count_once_active() {
    let mut p = page("secret", "Plain Title");
    p.keywords_cond = vec![KeywordsCond {
        keywords: "spoiler".to_string(),
        cond: vec!["o-m2".to_string()],
    }];
    let pages = vec![p];
    let before = search("spoiler", &pages, &observed(&["m1"]), "m").unwrap();
    assert!(before.hits.is_empty());
    let after = search("spoiler", &pages, &observed(&["m1", "m2"]), "m").unwrap();
    assert_eq!(after.hits.len(), 1);
    assert_eq!(after.hits[0].score, 1);
}

#[test]
fn hidden_pages_are_not_searched() {
    let mut p = page("later", "Future Page");
    p.show_cond = vec!["o-m2".to_string()];
    let pages = vec![p];
    let out = search("future", &pages, &observed(&["m1"]), "m").unwrap();
    assert!(out.hits.is_empty());
}

#[test]
fn conditional_alias_titles_redirect_only_once_active() {
    let mut p = page("city", "The City");
    p.title_peers_cond = vec![TitlePeerCond {
        peer: "Ruins".to_string(),
        cond: vec!["o-m2".to_string()],
    }];
    let pages = vec![p];
    let before = search("ruins", &pages, &observed(&["m1"]), "m").unwrap();
    assert_eq!(before.exact, None);
    let after = search("ruins", &pages, &observed(&["m1", "m2"]), "m").unwrap();
    assert_eq!(after.exact, Some("city".to_string()));
}

#[test]
fn malformed_show_condition_is_a_search_error() {
    let mut p = page("broken", "Broken");
    p.show_cond = vec!["bogus".to_string()];
    let pages = vec![p];
    assert!(search("broken", &pages, &observed(&[]), "m").is_err());
}

#[test]
fn url_key_tokens_score_in_the_title_channel() {
    let pages = vec![page("ancient-ruins", "Lost City")];
    let out = search("ruins", &pages, &observed(&[]), "m").unwrap();
    assert_eq!(out.exact, None);
    assert_eq!(out.hits.len(), 1);
    assert_eq!(out.hits[0].page_url, "ancient-ruins");
    assert_eq!(out.hits[0].score, 2);
}
