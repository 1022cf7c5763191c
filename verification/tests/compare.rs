use amberbeam_core::compare::{by_listing, excluded, far_side, pair_up, rows_in_order, Difference, How, Row};
use amberbeam_core::error::{Error, PathProblem};
use amberbeam_core::fs::Listing;
use amberbeam_core::fs::{DirEntry, EntryKind};

fn file(name: &str, size: u64, modified: Option<i64>) -> DirEntry {
    DirEntry {
        name: name.into(),
        kind: EntryKind::File,
        size: Some(size),
        modified,
        permissions: None,
        owner: None,
        group: None,
        link_target: None,
        kind_of_target: None,
    }
}

fn dir(name: &str) -> DirEntry {
    DirEntry {
        kind: EntryKind::Directory,
        size: None,
        ..file(name, 0, None)
    }
}

#[test]
fn a_pattern_matches_the_names_somebody_meant() {
    let list = |patterns: &[&str]| patterns.iter().map(|p| p.to_string()).collect::<Vec<_>>();

    assert!(excluded(".git", &list(&[".git"])));
    assert!(!excluded(".gitignore", &list(&[".git"])), "not a prefix match");
    assert!(excluded(".gitignore", &list(&[".git*"])));
    assert!(excluded("error.log", &list(&["*.log"])));
    assert!(!excluded("logbook", &list(&["*.log"])));
    assert!(excluded("node_modules", &list(&["node_modules", "*.tmp"])));
    assert!(excluded(".DS_Store", &list(&[".ds_store"])));
    assert!(excluded("Thumbs.db", &list(&["thumbs.db"])));
    assert!(excluded("anything", &list(&["*"])));
    assert!(!excluded("anything", &list(&["", "   "])));
}

#[test]
fn stars_in_the_middle_find_their_pieces_in_order() {
    let list = |patterns: &[&str]| patterns.iter().map(|p| p.to_string()).collect::<Vec<_>>();
    assert!(excluded("backup-2024-old.tar", &list(&["backup*old*"])));
    assert!(!excluded("old-backup.tar", &list(&["backup*old*"])));
    assert!(excluded("abab", &list(&["*ab"])));
    assert!(!excluded("ab", &list(&["ab*b"])));
}

fn by(how: How, one: u64, when: Option<i64>, other: u64, then: Option<i64>) -> Difference {
    by_listing(how, &file("index.php", one, when), &file("index.php", other, then))
        .expect("these rules need no file read")
}

#[test]
fn what_counts_as_the_same_file() {
    assert_eq!(by(How::Size, 10, Some(100), 10, Some(9_000)), Difference::Same);
    assert_eq!(by(How::Size, 10, None, 11, None), Difference::Different);
    assert_eq!(
        by(How::SizeAndTime, 10, Some(1_000), 10, Some(1_002)),
        Difference::Same,
        "two seconds is within one moment"
    );
    assert_eq!(
        by(How::SizeAndTime, 10, Some(1_000), 10, Some(1_003)),
        Difference::Different
    );
    assert_eq!(by(How::SizeAndTime, 10, Some(1_000), 10, None), Difference::Same);
    assert_eq!(by(How::SizeAndTime, 10, None, 10, None), Difference::Same);
    assert_eq!(
        by_listing(How::Checksum, &file("a", 10, Some(1)), &file("a", 11, Some(1))),
        Some(Difference::Different)
    );
    assert_eq!(
        by_listing(How::Checksum, &file("a", 10, Some(1)), &file("a", 10, Some(9_000))),
        None,
        "a clock is not evidence when a digest was asked for"
    );
}

#[test]
fn two_listings_pair_up_by_name() {
    let here = vec![file("a.txt", 1, None), dir("img"), file("same.txt", 5, None), file("skip.tmp", 1, None)];
    let there = vec![file("same.txt", 5, None), file("z.txt", 2, None), dir("img")];
    let excludes = vec!["*.tmp".to_string()];
    let paired = pair_up("www", &here, &there, How::Checksum, true, &excludes);
    let states: Vec<(&str, Difference)> = paired
        .rows
        .iter()
        .map(|row| (row.path.as_str(), row.state))
        .collect();
    assert_eq!(
        states,
        vec![
            ("www/a.txt", Difference::OnlyHere),
            ("www/img", Difference::Same),
            ("www/same.txt", Difference::Same),
            ("www/z.txt", Difference::OnlyThere),
        ]
    );
    assert_eq!(paired.unsettled, vec![2], "the same size needs reading");
    assert_eq!(paired.deeper, vec!["www/img".to_string()]);
    let top = pair_up("", &[file("a", 1, None)], &[], How::Size, false, &[]);
    assert_eq!(top.rows[0].path, "a");
}

fn row(path: &str) -> Row {
    Row {
        path: path.into(),
        name: path.rsplit('/').next().unwrap_or(path).into(),
        kind: EntryKind::File,
        state: Difference::OnlyHere,
        here: None,
        there: None,
    }
}

#[test]
fn a_far_side_that_is_not_there_compares_as_empty() {
    let missing = Err(Error::Path { path: "/srv/new".into(), reason: PathProblem::NotFound });
    let side = far_side(missing, "/srv/new".into()).expect("read as empty");
    assert_eq!(side.path, "/srv/new");
    assert!(side.entries.is_empty());
}

#[test]
fn a_far_side_that_cannot_be_read_stays_a_failure() {
    assert_eq!(far_side(Err(Error::Disconnected), "/srv".into()).unwrap_err(), Error::Disconnected);
    let refused = Error::AuthenticationFailed { user: "dennis".into() };
    assert_eq!(far_side(Err(refused.clone()), "/srv".into()).unwrap_err(), refused);
}

#[test]
fn a_far_side_that_was_listed_is_taken_as_it_is() {
    let listed = Listing { path: "/srv".into(), entries: vec![file("a.txt", 3, None)] };
    let side = far_side(Ok(listed), "/elsewhere".into()).expect("listed");
    assert_eq!(side.path, "/srv");
    assert_eq!(side.entries.len(), 1);
    assert_eq!(side.entries[0].name, "a.txt");
}

#[test]
fn rows_come_in_the_order_of_their_paths_in_lower_case() {
    let rows = vec![row("b"), row("A/x"), row("a"), row("B")];
    let paths: Vec<String> = rows_in_order(rows).into_iter().map(|r| r.path).collect();
    assert_eq!(paths, vec!["a", "A/x", "b", "B"]);
}

#[test]
fn no_rows_stay_no_rows() {
    assert!(rows_in_order(Vec::new()).is_empty());
}
