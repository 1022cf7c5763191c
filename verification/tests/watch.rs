use amberbeam_core::transfer::ConflictPolicy;
use amberbeam_core::watch::{below, hidden, step_for, Settle, Watch, WatchStep, Watches, AT_LATEST_MS, SETTLE_MS};

#[test]
fn a_path_is_placed_below_the_directory_being_watched() {
    let root = "/Users/someone/site";
    assert_eq!(below(root, "/Users/someone/site/index.php").as_deref(), Some("index.php"));
    assert_eq!(below(root, "/Users/someone/site/bilder/foto.jpg").as_deref(), Some("bilder/foto.jpg"));
    // The directory itself is not below itself, and something outside it
    // is not below it either.
    assert_eq!(below(root, "/Users/someone/site"), None);
    assert_eq!(below(root, "/Users/someone/other/x"), None);
}

#[test]
fn an_excluded_directory_excludes_what_is_inside_it() {
    let patterns = vec!["node_modules".to_string(), "*.log".to_string()];
    assert!(hidden("node_modules/left-pad/index.js", &patterns));
    assert!(hidden("logs/error.log", &patterns));
    assert!(!hidden("src/index.php", &patterns));
    assert!(!hidden("node_modules.txt", &patterns));
}

#[test]
fn a_name_that_only_starts_like_the_directory_is_not_below_it() {
    assert_eq!(below("/srv/site", "/srv/site-old/a"), None);
    assert_eq!(below("/srv/site/", "/srv//site/./a"), Some("a".to_string()));
    assert_eq!(below("srv", "/srv/a"), None);
}

#[test]
fn a_changed_file_is_queued_into_the_same_place_over_there() {
    let step = step_for("/home/a/site", "/home/a/site/css/main.css", false, true, &[], false, "far", "/var/www/");
    match step {
        WatchStep::Send(request) => {
            assert_eq!(request.source_endpoint.as_str(), "local");
            assert_eq!(request.source_directory, "/home/a/site/css");
            assert_eq!(request.names, vec!["main.css".to_string()]);
            assert_eq!(request.target_endpoint.as_str(), "far");
            assert_eq!(request.target_directory, "/var/www/css");
            assert_eq!(request.conflict_policy, ConflictPolicy::Overwrite);
            assert!(request.keep_modified && !request.keep_permissions && request.use_temporary_name);
            assert_eq!(request.retries, None);
        },
        _ => panic!("a changed file goes into the queue"),
    }
    match step_for("/home/a/site", "/home/a/site/index.html", false, true, &[], false, "far", "/var/www/") {
        WatchStep::Send(request) => assert_eq!(request.target_directory, "/var/www/"),
        _ => panic!("a changed file goes into the queue"),
    }
}

#[test]
fn a_directory_an_outsider_or_an_excluded_file_leads_nowhere() {
    let patterns = vec!["*.tmp".to_string()];
    assert!(matches!(step_for("/s", "/s/dir", false, false, &patterns, true, "far", "/w"), WatchStep::Nothing));
    assert!(matches!(step_for("/s", "/t/a.txt", false, true, &patterns, true, "far", "/w"), WatchStep::Nothing));
    assert!(matches!(step_for("/s", "/s/a.tmp", false, true, &patterns, true, "far", "/w"), WatchStep::Nothing));
}

#[test]
fn a_removal_is_carried_across_only_when_asked_for() {
    assert!(matches!(step_for("/s", "/s/old/a.txt", true, false, &[], false, "far", "/w"), WatchStep::Nothing));
    match step_for("/s", "/s/old/a.txt", true, false, &[], true, "far", "/w/") {
        WatchStep::Remove { endpoint, path } => {
            assert_eq!(endpoint, "far");
            assert_eq!(path, "/w/old/a.txt");
        },
        _ => panic!("a removal goes straight to the far side"),
    }
}

#[test]
fn changes_wait_until_the_noise_stops_but_not_forever() {
    let mut settle = Settle::new();
    assert_eq!(settle.wait_ms(), AT_LATEST_MS);
    assert!(!settle.arrived("/s/a".into(), 1000));
    assert!(!settle.arrived("/s/a".into(), 1100));
    assert!(!settle.arrived("/s/b".into(), 2000));
    assert_eq!(settle.wait_ms(), SETTLE_MS);
    assert_eq!(settle.waiting.len(), 2);
    assert!(settle.arrived("/s/c".into(), 4000));
    assert_eq!(settle.take(), vec!["/s/a".to_string(), "/s/b".to_string(), "/s/c".to_string()]);
    assert!(settle.take().is_empty());
    assert_eq!(settle.oldest, None);
    assert!(!settle.arrived("/s/d".into(), 9000));
    assert_eq!(settle.oldest, Some(9000));
}

fn watch(id: &str, root: &str, started: i64) -> Watch {
    Watch {
        id: id.into(),
        endpoint: "local".into(),
        root: root.into(),
        target_endpoint: "far".into(),
        target_root: "/w".into(),
        target_title: None,
        sent: 0,
        started,
    }
}

#[test]
fn one_directory_is_watched_once() {
    let mut watches = Watches::new();
    assert_eq!(watches.add(watch("a", "/s", 5)).id, "a");
    assert_eq!(watches.add(watch("b", "/s", 6)).id, "a");
    assert_eq!(watches.open.len(), 1);
    assert_eq!(watches.watching("/s").unwrap().id, "a");
    assert!(watches.watching("/t").is_none());
}

#[test]
fn watches_are_listed_by_when_they_started_and_stop_one_by_one() {
    let mut watches = Watches::new();
    watches.add(watch("late", "/b", 9));
    watches.add(watch("early", "/a", 2));
    watches.add(watch("same", "/c", 9));
    let listed: Vec<String> = watches.list().into_iter().map(|w| w.id).collect();
    assert_eq!(listed, vec!["early", "late", "same"]);

    watches.count_sent("late", 3);
    watches.count_sent("late", 2);
    watches.count_sent("nobody", 7);
    let stopped = watches.stop("late").unwrap();
    assert_eq!(stopped.sent, 5);
    assert!(watches.stop("late").is_none());
    assert_eq!(watches.stop_all().len(), 2);
    assert!(watches.list().is_empty());
}
