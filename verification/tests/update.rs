//! Deciding whether a published release is worth offering.

use generic_accounting_system::update::{
    is_newer, offered_update, parse, parts, worth_offering, Check, Received, Release, Update, CURRENT, RELEASES_PAGE,
};

fn release(tag: &str) -> String {
    format!(
        r#"{{"tag_name": "{tag}",
            "html_url": "https://github.com/mediaswing/watchspend/releases/tag/{tag}",
            "draft": false, "prerelease": false}}"#
    )
}

#[test]
fn a_higher_version_is_offered() {
    let update = parse(&release("v1.1.0"), "1.0.0").expect("an update");
    assert_eq!(update.version, "1.1.0");
    assert!(update.page.ends_with("/tag/v1.1.0"));
}

#[test]
fn the_same_or_older_is_not() {
    assert!(parse(&release("v1.0.0"), "1.0.0").is_none());
    assert!(parse(&release("v0.9.9"), "1.0.0").is_none());
    assert!(parse(&release("v1.0.0"), "1.0.1").is_none());
}

#[test]
fn versions_compare_as_numbers_not_as_text() {
    // The whole point: "10" sorts before "9" as text and after it here.
    assert!(is_newer("1.10.0", "1.9.0"));
    assert!(is_newer("2.0.0", "1.99.99"));
    assert!(!is_newer("1.9.0", "1.10.0"));
    assert!(is_newer("1.0.1", "1.0.0"));
}

#[test]
fn nonsense_never_produces_a_prompt() {
    assert!(!is_newer("banana", "1.0.0"));
    assert!(!is_newer("", "1.0.0"));
    assert!(!is_newer("1.0.0.1", "1.0.0"));
    assert!(parse("not json at all", "1.0.0").is_none());
    assert!(parse("{}", "1.0.0").is_none());
    assert!(parse(&release("v"), "1.0.0").is_none());
}

#[test]
fn drafts_and_pre_releases_are_left_alone() {
    let draft = r#"{"tag_name":"v9.0.0","draft":true,"prerelease":false}"#;
    let pre = r#"{"tag_name":"v9.0.0","draft":false,"prerelease":true}"#;
    assert!(parse(draft, "1.0.0").is_none());
    assert!(parse(pre, "1.0.0").is_none());
}

#[test]
fn a_url_pointing_somewhere_else_is_not_followed() {
    let hostile = r#"{"tag_name":"v2.0.0","draft":false,"prerelease":false,
                      "html_url":"https://example.invalid/phish"}"#;
    let update = parse(hostile, "1.0.0").expect("an update");
    assert_eq!(update.page, RELEASES_PAGE);
}

#[test]
fn this_build_knows_its_own_version() {
    assert!(parts(CURRENT).is_some(), "CARGO_PKG_VERSION is {CURRENT}");
}

// Beyond the module's own examples.

#[test]
fn version_parts_are_up_to_three_numbers_before_any_suffix() {
    assert_eq!(parts("1.2.3"), Some((1, 2, 3)));
    assert_eq!(parts("1.2"), Some((1, 2, 0)));
    assert_eq!(parts("7"), Some((7, 0, 0)));
    assert_eq!(parts("1.2.3-beta.1"), Some((1, 2, 3)));
    assert_eq!(parts("2.0.0+build.5"), Some((2, 0, 0)));
    assert_eq!(parts("v1.2.3"), None);
    assert_eq!(parts(" 1.2.3"), None);
    assert_eq!(parts("1..2"), None);
    assert_eq!(parts("1.2.x"), None);
    assert_eq!(parts("99999999999.0.0"), None);
}

#[test]
fn newer_is_neither_reflexive_nor_symmetric() {
    for (a, b) in [("1.0.0", "1.0.0"), ("2.1.0", "2.0.9"), ("0.0.1", "0.0.0")] {
        assert!(!(is_newer(a, b) && is_newer(b, a)));
        assert!(!is_newer(a, a));
    }
    assert!(!is_newer("1.0.0", "nonsense"));
}

#[test]
fn a_release_missing_its_tag_or_with_flags_unset_is_judged_on_what_it_has() {
    let bare = Release { draft: None, prerelease: None, tag_name: Some("v3.0.0".to_owned()), html_url: None };
    let update = offered_update(Some(bare), "1.0.0").expect("an update");
    assert_eq!(update.version, "3.0.0");
    assert_eq!(update.page, RELEASES_PAGE);
    let tagless = Release { draft: Some(false), prerelease: Some(false), tag_name: None, html_url: None };
    assert!(offered_update(Some(tagless), "1.0.0").is_none());
    assert!(offered_update(None, "1.0.0").is_none());
}

#[test]
fn a_check_that_never_started_has_nothing_to_say() {
    let mut check = Check::disabled();
    assert!(!check.is_running());
    assert!(check.poll().is_none());
}

#[test]
fn a_finished_check_hands_over_its_answer_once() {
    let (send, receive) = std::sync::mpsc::channel();
    let mut check = Check::waiting_on(receive);
    assert!(check.is_running());
    assert!(check.poll().is_none());
    send.send(parse(&release("v9.9.9"), "1.0.0")).unwrap();
    let update = check.poll().expect("the answer");
    assert_eq!(update.version, "9.9.9");
    assert!(!check.is_running());
    assert!(check.poll().is_none());
}

#[test]
fn a_dismissed_version_is_not_raised_again() {
    let found = || Some(Update { version: "2.0.0".to_owned(), page: RELEASES_PAGE.to_owned() });
    assert_eq!(worth_offering(found(), &Some("2.0.0".to_owned())), None);
    assert_eq!(worth_offering(found(), &Some("1.9.0".to_owned())), found());
    assert_eq!(worth_offering(found(), &None), found());
    assert_eq!(worth_offering(None, &None), None);
}

#[test]
fn settling_a_check_follows_what_the_channel_said() {
    let (_send, receive) = std::sync::mpsc::channel();
    let mut check = Check::waiting_on(receive);
    assert!(check.settle(Received::Empty).is_none());
    assert!(check.is_running());
    let update = Update { version: "3.0.0".to_owned(), page: RELEASES_PAGE.to_owned() };
    assert_eq!(check.settle(Received::Answer(Some(update.clone()))), Some(update));
    assert!(!check.is_running());

    let (_send, receive) = std::sync::mpsc::channel();
    let mut gone = Check::waiting_on(receive);
    assert!(gone.settle(Received::Disconnected).is_none());
    assert!(!gone.is_running());
}
