use amberbeam_core::update::{is_newer, newest_release, read_answer, ReleaseEntry};

#[test]
fn a_higher_version_is_newer() {
    assert!(is_newer("0.1.0", "0.2.0"));
    assert!(is_newer("0.1.0", "0.1.1"));
    assert!(is_newer("0.9.9", "1.0.0"));
    assert!(is_newer("0.1.0", "v0.2.0"), "the leading v is not part of it");
}

#[test]
fn the_same_or_an_older_version_is_not() {
    assert!(!is_newer("0.2.0", "0.2.0"));
    assert!(!is_newer("0.2.0", "0.1.9"));
    assert!(!is_newer("1.0.0", "0.9.9"));
}

#[test]
fn ten_comes_after_nine_rather_than_before_it() {
    assert!(is_newer("0.9.0", "0.10.0"));
    assert!(!is_newer("0.10.0", "0.9.0"));
}

#[test]
fn a_pre_release_is_never_offered() {
    assert!(!is_newer("0.1.0", "0.2.0-rc1"));
    assert!(!is_newer("0.1.0", "0.2.0+build7"));
}

#[test]
fn nonsense_answers_no_rather_than_guessing() {
    assert!(!is_newer("0.1.0", "tomorrow"));
    assert!(!is_newer("0.1.0", ""));
    assert!(!is_newer("0.1.0", "0.2.0.1"));
    assert!(!is_newer("unknown", "0.2.0"));
}

#[test]
fn a_short_version_reads_as_zeros() {
    assert!(is_newer("1.2", "1.2.1"));
    assert!(!is_newer("1.2.0", " v1.2 "));
}

#[test]
fn the_notes_travel_with_the_release() {
    let answer = "[{\"tag_name\":\"v0.3.0\",\"html_url\":\"https://github.com/sphings79/amberbeam/releases/tag/v0.3.0\",\"body\":\"### Fixed\\n\\n- Something that was broken.\",\"draft\":false}]";
    let found = read_answer(answer).unwrap();
    assert_eq!(found.notes, "### Fixed\n\n- Something that was broken.");
}

#[test]
fn a_release_without_notes_is_still_a_release() {
    let answer = r#"[{"tag_name":"v0.3.0","html_url":"https://github.com/sphings79/amberbeam/releases/tag/v0.3.0","draft":false}]"#;
    let found = read_answer(answer).unwrap();
    assert_eq!(found.notes, "");
}

#[test]
fn a_release_is_read_out_of_the_answer() {
    let json = r#"{
        "tag_name": "v0.3.0",
        "html_url": "https://github.com/sphings79/amberbeam/releases/tag/v0.3.0",
        "draft": false,
        "prerelease": false
    }"#;
    let release = read_answer(json).expect("a release");
    assert_eq!(release.version, "0.3.0");
    assert!(release.url.ends_with("v0.3.0"));
    assert!(is_newer("0.1.0", &release.version));
}

#[test]
fn a_draft_is_not_read_but_a_pre_release_is() {
    let draft = r#"{"tag_name": "v0.3.0", "draft": true, "prerelease": false}"#;
    assert!(read_answer(draft).is_none());
    let early = r#"{"tag_name": "v0.3.0", "draft": false, "prerelease": true}"#;
    assert_eq!(read_answer(early).map(|r| r.version), Some("0.3.0".into()));
}

#[test]
fn the_newest_is_the_highest_version_and_not_the_first_in_the_list() {
    let list = r#"[
        {"tag_name": "v0.1.4", "draft": false, "prerelease": true},
        {"tag_name": "v0.3.0", "draft": false, "prerelease": true},
        {"tag_name": "v0.2.9", "draft": false, "prerelease": false}
    ]"#;
    assert_eq!(read_answer(list).map(|r| r.version), Some("0.3.0".into()));
}

#[test]
fn a_draft_in_a_list_is_passed_over_rather_than_ending_the_search() {
    let list = r#"[
        {"tag_name": "v9.9.9", "draft": true, "prerelease": false},
        {"tag_name": "v0.2.0", "draft": false, "prerelease": true}
    ]"#;
    assert_eq!(read_answer(list).map(|r| r.version), Some("0.2.0".into()));
}

#[test]
fn a_tag_that_cannot_be_compared_is_not_offered() {
    let list = r#"[{"tag_name": "nightly", "draft": false, "prerelease": true}]"#;
    assert!(read_answer(list).is_none());
    let mixed = r#"[
        {"tag_name": "nightly", "draft": false, "prerelease": true},
        {"tag_name": "v0.1.0", "draft": false, "prerelease": true}
    ]"#;
    assert_eq!(read_answer(mixed).map(|r| r.version), Some("0.1.0".into()));
}

#[test]
fn an_empty_list_is_no_release_rather_than_a_failure() {
    assert!(read_answer("[]").is_none());
}

#[test]
fn an_answer_that_is_not_json_is_not_a_release() {
    assert!(read_answer("<html>rate limited</html>").is_none());
    assert!(read_answer("{}").is_none());
}

fn entry(tag: Option<&str>, draft: Option<bool>) -> ReleaseEntry {
    ReleaseEntry {
        draft,
        tag: tag.map(String::from),
        notes: None,
        url: None,
    }
}

#[test]
fn of_two_equal_versions_the_later_entry_wins_and_a_missing_page_is_filled_in() {
    let entries = vec![
        entry(Some("v1.0.0"), None),
        entry(Some("1.0.0"), Some(false)),
        entry(None, None),
    ];
    let found = newest_release(&entries).expect("a release");
    assert_eq!(found.tag, "1.0.0");
    assert_eq!(found.url, "https://github.com/sphings79/amberbeam/releases");
    assert!(newest_release(&[entry(Some("v2.0.0"), Some(true))]).is_none());
}
