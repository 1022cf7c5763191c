use amberbeam_core::fs::{DirEntry, EntryKind};
use amberbeam_core::registry::{search_limit, Expansion, Search, MOST_MATCHES, SEARCH_DIRECTORIES};

fn entry(name: &str, kind: EntryKind) -> DirEntry {
    DirEntry {
        name: name.into(),
        kind,
        size: if kind == EntryKind::File { Some(10) } else { None },
        modified: Some(1_700_000_000),
        permissions: None,
        owner: None,
        group: None,
        link_target: None,
        kind_of_target: None,
    }
}

#[test]
fn nothing_to_look_for_is_refused() {
    assert!(Search::start("/", "   ", 10).is_err());
    let search = Search::start("/srv", "  Bericht ", 10).unwrap();
    assert_eq!(search.needle, "bericht");
    assert_eq!(search.pending, vec!["/srv".to_string()]);
}

#[test]
fn a_search_walks_down_and_finds_names_without_minding_case() {
    let mut search = Search::start("/srv", "bericht", 10).unwrap();
    assert_eq!(search.next_directory().as_deref(), Some("/srv"));
    search.take_listing(
        "/srv",
        &[entry("Bericht-2023.pdf", EntryKind::File), entry("archiv", EntryKind::Directory), entry("link", EntryKind::Symlink)],
        false,
    );
    assert_eq!(search.found.matches.len(), 1);
    assert_eq!(search.found.matches[0].path, "/srv/Bericht-2023.pdf");
    assert_eq!(search.next_directory().as_deref(), Some("/srv/archiv"));
    search.take_listing("/srv/archiv", &[entry("berichte", EntryKind::Directory)], false);
    assert_eq!(search.found.matches.len(), 2);
    assert_eq!(search.next_directory().as_deref(), Some("/srv/archiv/berichte"));
    search.take_listing("/srv/archiv/berichte", &[], false);
    assert_eq!(search.next_directory(), None);
    let result = search.finish();
    assert_eq!(result.directories, 3);
    assert!(!result.truncated);
}

#[test]
fn a_search_that_hits_its_limit_says_it_is_partial() {
    let mut search = Search::start("/", "a", 2).unwrap();
    search.next_directory();
    search.take_listing(
        "/",
        &[entry("a1", EntryKind::File), entry("a2", EntryKind::Directory), entry("a3", EntryKind::File)],
        true,
    );
    assert_eq!(search.found.matches.len(), 2);
    assert!(search.found.truncated);
    assert!(search.pending.is_empty());
    assert_eq!(search.next_directory(), None);
    assert_eq!(SEARCH_DIRECTORIES, 2000);
}

#[test]
fn a_selected_folder_unfolds_into_its_files_and_keeps_empty_folders() {
    let mut x = Expansion::start("/srv/site", "site");
    let (path, relative) = x.next().unwrap();
    assert_eq!((path.as_str(), relative.as_str()), ("/srv/site", "site"));
    x.take_listing(&path, &relative, &[entry("index.html", EntryKind::File), entry("leer", EntryKind::Directory)], false);
    let (path, relative) = x.next().unwrap();
    assert_eq!((path.as_str(), relative.as_str()), ("/srv/site/leer", "site/leer"));
    x.take_listing(&path, &relative, &[], false);
    assert!(x.next().is_none());
    let out = x.finish();
    assert_eq!(out.len(), 2);
    assert_eq!(out[0].source_path, "/srv/site/index.html");
    assert_eq!(out[0].relative, "site/index.html");
    assert_eq!(out[0].size, Some(10));
    assert_eq!(out[1].source_path, "/srv/site/leer");
    assert_eq!(out[1].size, None);
}

#[test]
fn a_search_is_asked_for_between_one_and_the_most_matches() {
    assert_eq!(search_limit(0), 1);
    assert_eq!(search_limit(1), 1);
    assert_eq!(search_limit(250), 250);
    assert_eq!(search_limit(2_000), 2_000);
    assert_eq!(search_limit(1_000_000), MOST_MATCHES);
    assert_eq!(MOST_MATCHES, 2_000);
}
