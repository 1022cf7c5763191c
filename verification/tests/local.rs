use amberbeam_core::local::LocalSession;

#[test]
fn the_directory_above_is_found_and_the_top_has_none() {
    let local = LocalSession::new();
    assert_eq!(local.parent("/home/dennis/site").as_deref(), Some("/home/dennis"));
    assert_eq!(local.parent("/home").as_deref(), Some("/"));
    assert_eq!(local.parent("/home/dennis/").as_deref(), Some("/home"));
    assert_eq!(local.parent("/"), None);
    assert_eq!(local.parent(""), None);
    assert_eq!(local.parent("site").as_deref(), Some(""));
    assert_eq!(local.parent("./site/css").as_deref(), Some("./site"));
    assert_eq!(local.parent("./site").as_deref(), Some("."));
}

#[test]
fn joining_puts_one_separator_between() {
    let local = LocalSession::new();
    assert_eq!(local.join("/home/dennis", "site"), "/home/dennis/site");
    assert_eq!(local.join("/home/dennis/", "site"), "/home/dennis/site");
    assert_eq!(local.join("", "site"), "site");
    assert_eq!(local.join("/home/dennis", "/etc"), "/etc");
}

#[test]
fn a_local_session_walks_up_in_the_notation_of_this_system() {
    let session = LocalSession::new();
    assert!(session.parent("/var/www/html").is_some());
    assert!(session.join("/var/www", "index.html").ends_with("index.html"));
}
