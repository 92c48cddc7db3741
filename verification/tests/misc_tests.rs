use story_wiki::categories::categorize;
use story_wiki::irc::Irc;
use story_wiki::manifest::{Continuity, Manifest, Page, Release};
use story_wiki::observed::ObservedSet;
use story_wiki::picker::{
    continuity_picker_feeds, release_picker_feeds, segments_from_feeds, OptionSegment, PickerFeed,
};
use story_wiki::resource::DownloadableResource;
use story_wiki::text::{html_escape, str_lt, u64_to_string};
use story_wiki::title::compose_title;

fn page(url: &str, title: &str, categories: &[&str]) -> Page {
    Page {
        page_url: url.to_string(),
        resource_path: format!("/{url}.md"),
        display_name: Some(title.to_string()),
        show_cond: vec![],
        keywords: String::new(),
        keywords_cond: vec![],
        title_peers: vec![],
        title_peers_cond: vec![],
        categories: categories.iter().map(|c| c.to_string()).collect(),
        categories_cond: vec![],
    }
}

#[test]
fn decimal_rendering_matches() {
    assert_eq!(u64_to_string(0), "0");
    assert_eq!(u64_to_string(7), "7");
    assert_eq!(u64_to_string(90102), "90102");
}

#[test]
fn html_escaping_replaces_the_four_specials() {
    assert_eq!(html_escape("a<b>&\"c'"), "a&lt;b&gt;&amp;&quot;c'");
}

#[test]
fn string_order_is_by_code_point() {
    assert!(str_lt("abc", "abd"));
    assert!(str_lt("ab", "abc"));
    assert!(!str_lt("b", "abc"));
    assert!(!str_lt("abc", "abc"));
}

#[test]
fn titles_compose_with_dashes() {
    assert_eq!(compose_title(None, None, None), "A StoryWiki");
    assert_eq!(
        compose_title(Some("Wiki"), Some("Main"), Some("Start")),
        "Wiki - Main - Start"
    );
    assert_eq!(compose_title(Some("Wiki"), None, Some("Start")), "Wiki - Start");
}

#[test]
fn categorize_groups_and_sorts() {
    let pages = vec![
        page("zeta", "Zeta", &["People"]),
        page("alpha", "Alpha", &["People", "Places"]),
        page("beta", "Beta", &["Places"]),
    ];
    let groups = categorize(&pages, &ObservedSet::new(), "m").unwrap();
    assert_eq!(groups.len(), 2);
    assert_eq!(groups[0].category, "People");
    let people: Vec<&str> = groups[0].pages.iter().map(|p| p.display_name.as_str()).collect();
    assert_eq!(people, vec!["Alpha", "Zeta"]);
    assert_eq!(groups[1].category, "Places");
    let places: Vec<&str> = groups[1].pages.iter().map(|p| p.display_name.as_str()).collect();
    assert_eq!(places, vec!["Alpha", "Beta"]);
}

fn feed(value: &str, new_group: Option<Option<&str>>) -> PickerFeed {
    PickerFeed {
        value: value.to_string(),
        display: value.to_string(),
        selected: false,
        hidden: false,
        new_group: new_group.map(|g| g.map(|s| s.to_string())),
    }
}

#[test]
fn feeds_group_until_the_group_ends() {
    let feeds = vec![
        feed("a", None),
        feed("b", Some(Some("Season"))),
        feed("c", None),
        feed("d", Some(None)),
        feed("e", None),
    ];
    let segments = segments_from_feeds(feeds);
    assert_eq!(segments.len(), 4);
    assert!(matches!(&segments[0], OptionSegment::SingleOption(o) if o.value == "a"));
    match &segments[1] {
        OptionSegment::OptionGroup { label, options, .. } => {
            assert_eq!(label, "Season");
            let vals: Vec<&str> = options.iter().map(|o| o.value.as_str()).collect();
            assert_eq!(vals, vec!["b", "c"]);
        }
        _ => panic!("expected a group"),
    }
    assert!(matches!(&segments[2], OptionSegment::SingleOption(o) if o.value == "d"));
    assert!(matches!(&segments[3], OptionSegment::SingleOption(o) if o.value == "e"));
}

#[test]
fn resource_states_report_their_phase() {
    let none: DownloadableResource<u32> = DownloadableResource::NotYetRequested;
    assert!(!none.requested());
    assert!(!none.is_ready());
    assert_eq!(none.opt(), None);
    let loading: DownloadableResource<u32> = DownloadableResource::Downloading;
    assert!(loading.requested());
    assert!(!loading.is_ready());
    let ready = DownloadableResource::Ready(7u32);
    assert!(ready.is_ready());
    assert!(matches!(ready.as_ref(), DownloadableResource::Ready(&7)));
    assert_eq!(ready.opt(), Some(7));
    assert_eq!(DownloadableResource::Ready(9u32).unwrap(), 9);
    let defaulted: DownloadableResource<u32> = Default::default();
    assert!(!defaulted.requested());
}

#[test]
fn irc_shares_one_value() {
    let a = Irc::new(41u64);
    let b = a.clone();
    assert_eq!(*a.get(), 41);
    assert_eq!(*b.get(), 41);
}

fn picker_manifest() -> Manifest {
    Manifest {
        title: "Wiki".to_string(),
        continuities: vec![
            Continuity {
                reference_name: "main".to_string(),
                display_name: Some("Main".to_string()),
                url_prefix: None,
                prefix: "m".to_string(),
            },
            Continuity {
                reference_name: "branch".to_string(),
                display_name: Some("Branch".to_string()),
                url_prefix: None,
                prefix: "b".to_string(),
            },
        ],
        releases: vec![
            (
                "main".to_string(),
                vec![
                    Release {
                        reference_name: "m1".to_string(),
                        display_name: Some("One".to_string()),
                        begins_group: None,
                    },
                    Release {
                        reference_name: "m2".to_string(),
                        display_name: Some("Two".to_string()),
                        begins_group: Some("Era".to_string()),
                    },
                ],
            ),
            (
                "branch".to_string(),
                vec![Release {
                    reference_name: "b1".to_string(),
                    display_name: Some("Side".to_string()),
                    begins_group: Some(String::new()),
                }],
            ),
        ],
        pages: vec![],
    }
}

#[test]
fn continuity_feeds_mark_the_active_one() {
    let feeds = continuity_picker_feeds(&picker_manifest(), Some("branch"));
    assert_eq!(feeds.len(), 2);
    assert_eq!(feeds[0].value, "main");
    assert!(!feeds[0].selected);
    assert_eq!(feeds[1].value, "branch");
    assert!(feeds[1].selected);
    assert!(feeds.iter().all(|f| !f.hidden && f.new_group.is_none()));
}

#[test]
fn release_feeds_flatten_and_flag() {
    let feeds = release_picker_feeds(&picker_manifest(), Some("main"), Some("m2"));
    assert_eq!(feeds.len(), 3);
    assert_eq!(feeds[0].value, "m1");
    assert!(!feeds[0].selected);
    assert!(!feeds[0].hidden);
    assert_eq!(feeds[0].new_group, None);
    assert_eq!(feeds[1].value, "m2");
    assert!(feeds[1].selected);
    assert_eq!(feeds[1].new_group, Some(Some("Era".to_string())));
    assert_eq!(feeds[2].value, "b1");
    assert!(feeds[2].hidden);
    assert_eq!(feeds[2].new_group, Some(None));
    assert_eq!(feeds[2].display, "Side");
}
