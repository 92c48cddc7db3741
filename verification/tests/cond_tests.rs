use story_wiki::cond::{should_show, ConfigError};
use story_wiki::observed::ObservedSet;
use story_wiki::unscoped;

fn observed(items: &[&str]) -> ObservedSet {
    let mut set = ObservedSet::new();
    for item in items {
        set.push(item.to_string());
    }
    set
}

#[test]
fn scoped_x_hides_once_observed() {
    let obs = observed(&["m1"]);
    assert_eq!(should_show(&obs, "x-m1", "m"), Ok(false));
    assert_eq!(should_show(&obs, "x-m2", "m"), Ok(true));
}

#[test]
fn scoped_o_shows_once_observed() {
    let obs = observed(&["m1"]);
    assert_eq!(should_show(&obs, "o-m1", "m"), Ok(true));
    assert_eq!(should_show(&obs, "o-m2", "m"), Ok(false));
}

#[test]
fn out_of_scope_conditions_are_vacuously_true() {
    let obs = observed(&["b2"]);
    assert_eq!(should_show(&obs, "x-b2", "m"), Ok(true));
    assert_eq!(should_show(&obs, "o-b9", "m"), Ok(true));
}

#[test]
fn unscoped_modes_always_constrain() {
    let obs = observed(&["b2"]);
    assert_eq!(should_show(&obs, "xx-b2", "m"), Ok(false));
    assert_eq!(should_show(&obs, "oo-b2", "m"), Ok(true));
    assert_eq!(should_show(&obs, "oo-b9", "m"), Ok(false));
}

#[test]
fn missing_separator_is_an_error() {
    let obs = observed(&["m1"]);
    assert_eq!(should_show(&obs, "m1", "m"), Err(ConfigError::MissingSeparator));
}

#[test]
fn unknown_mode_is_an_error() {
    let obs = observed(&["m1"]);
    assert_eq!(should_show(&obs, "q-m1", "m"), Err(ConfigError::UnknownMode));
    assert_eq!(should_show(&obs, "xxx-m1", "m"), Err(ConfigError::UnknownMode));
    assert_eq!(should_show(&obs, "-m1", "m"), Err(ConfigError::UnknownMode));
}

#[test]
fn in_scope_x_and_o_are_complements() {
    let obs = observed(&["m1", "m2"]);
    for release in ["m1", "m2", "m3"] {
        let x = should_show(&obs, &format!("x-{release}"), "m").unwrap();
        let o = should_show(&obs, &format!("o-{release}"), "m").unwrap();
        assert_eq!(x, !o);
    }
}

#[test]
fn unscoped_evaluator_matches_two_character_modes() {
    let obs = observed(&["b2"]);
    assert_eq!(unscoped::should_show(&obs, "x-b2"), Ok(false));
    assert_eq!(unscoped::should_show(&obs, "o-b2"), Ok(true));
    assert_eq!(unscoped::should_show(&obs, "x-b9"), Ok(true));
    assert_eq!(
        unscoped::should_show(&obs, "zz"),
        Err(ConfigError::UnknownMode)
    );
}

#[test]
fn observed_set_contains_only_pushed_items() {
    let obs = observed(&["a", "b"]);
    assert!(obs.contains("a"));
    assert!(obs.contains("b"));
    assert!(!obs.contains("c"));
    assert_eq!(obs.entry_count(), 2);
}
