use amberbeam_core::config::{AuthKind, Config, QuickConnectEntry, Settings};
use amberbeam_core::endpoint::Protocol;
use amberbeam_core::error::{Error, PathProblem};
use amberbeam_core::ftp::tls::CertificateDecision;
use amberbeam_core::sites::{safe_segment, Site, Sites};

fn entry(user: &str, host: &str) -> QuickConnectEntry {
    QuickConnectEntry {
        id: QuickConnectEntry::id_for(user, host, 22),
        protocol: Protocol::Sftp,
        host: host.into(),
        port: 22,
        user: user.into(),
        auth: AuthKind::Password,
        key_path: None,
        last_path: Some("/var/www".into()),
        last_used: 1_700_000_000,
        saved_as_site: false,
        concurrency: None,
        retries: None,
        temporary_name: None,
        encryption: None,
        passive: None,
        latin1: None,
        keep_alive: None,
    }
}

#[test]
fn an_empty_history_is_not_an_error() {
    assert!(Config::at("/tmp/x").quick_connect().is_empty());
}

#[test]
fn a_login_is_named_user_at_host_and_port() {
    assert_eq!(QuickConnectEntry::id_for("dennis", "example.org", 2222), "dennis@example.org:2222");
}

#[test]
fn the_same_login_updates_instead_of_piling_up() {
    let mut config = Config::at("dedupe");
    config.remember_quick_connect(entry("dennis", "example.org"));
    config.remember_quick_connect(QuickConnectEntry {
        last_path: Some("/srv".into()),
        last_used: 1_700_000_500,
        ..entry("dennis", "example.org")
    });

    let history = config.quick_connect();
    assert_eq!(history.len(), 1);
    assert_eq!(history[0].last_path.as_deref(), Some("/srv"));
}

#[test]
fn the_most_recent_login_comes_first() {
    let mut config = Config::at("order");
    config.remember_quick_connect(entry("dennis", "old.example"));
    config.remember_quick_connect(QuickConnectEntry {
        last_used: 1_800_000_000,
        ..entry("dennis", "new.example")
    });
    let history = config.quick_connect();
    assert_eq!(history[0].host, "new.example");
}

#[test]
fn an_older_entry_read_later_still_sorts_behind() {
    let mut config = Config::at("sorting");
    config.history = vec![
        QuickConnectEntry { last_used: 1, ..entry("a", "one") },
        QuickConnectEntry { last_used: 3, ..entry("b", "three") },
        QuickConnectEntry { last_used: 3, ..entry("c", "three-too") },
        QuickConnectEntry { last_used: 2, ..entry("d", "two") },
    ];
    let hosts: Vec<String> = config.quick_connect().into_iter().map(|e| e.host).collect();
    assert_eq!(hosts, vec!["three", "three-too", "two", "one"]);
}

#[test]
fn an_entry_can_be_deleted() {
    let mut config = Config::at("delete");
    let one = entry("dennis", "example.org");
    config.remember_quick_connect(one.clone());
    config.remember_quick_connect(entry("other", "example.org"));
    config.forget_quick_connect(&one.id);
    let history = config.quick_connect();
    assert_eq!(history.len(), 1);
    assert_eq!(history[0].user, "other");
}

#[test]
fn taking_an_entry_into_the_site_manager_writes_a_site_file() {
    let mut config = Config::at("site");
    let one = entry("dennis", "example.org");
    config.remember_quick_connect(one.clone());

    let site = config.save_as_site(&one.id, "18c2-0").expect("a site");
    assert_eq!(site.id, "18c2-0");
    assert_eq!(site.name, "dennis@example.org");
    assert_eq!(site.host, "example.org");
    assert_eq!(site.remote_path.as_deref(), Some("/var/www"));
    assert_eq!(site.concurrency, 8, "SFTP starts at eight at a time");
    assert!(!site.remember_password);
    assert!(site.count_before_delete);
    assert!(config.quick_connect()[0].saved_as_site);
}

#[test]
fn a_login_nobody_made_cannot_be_taken_over() {
    let mut config = Config::at("missing");
    match config.save_as_site("nobody@nowhere:22", "x") {
        Err(Error::Path { path, reason }) => {
            assert_eq!(path, "nobody@nowhere:22");
            assert_eq!(reason, PathProblem::NotFound);
        }
        _ => panic!("expected a missing path"),
    }
}

#[test]
fn being_saved_to_the_site_manager_survives_the_next_connection() {
    let mut config = Config::at("saved-flag");
    let one = entry("dennis", "example.org");
    config.remember_quick_connect(one.clone());
    config.save_as_site(&one.id, "a-1").unwrap();
    config.remember_quick_connect(one.clone());
    assert!(config.quick_connect()[0].saved_as_site);
}

#[test]
fn settings_start_at_the_values_the_paper_decided() {
    let settings = Settings::default();
    assert_eq!(settings.concurrency, None, "the protocol decides by default");
    assert_eq!(settings.retries, 5);
    assert!(settings.keep_modified, "a timestamp is cheap and usually wanted");
    assert!(!settings.keep_permissions, "bits from one machine often make a mess on another");
    assert!(settings.temporary_name, "a half file should not wear a finished name unless asked");
    assert!(settings.review_comparison);
    assert!(!settings.delete_along);
    assert_eq!(settings.editing.len(), 1);
}

#[test]
fn a_login_may_carry_its_own_numbers() {
    let mut config = Config::at("per-login");
    let one = QuickConnectEntry {
        concurrency: Some(2),
        retries: Some(9),
        ..entry("dennis", "example.org")
    };
    config.remember_quick_connect(one.clone());
    let site = config.save_as_site(&one.id, "b-2").unwrap();
    assert_eq!(site.concurrency, 2, "the login's own value, not the protocol's");
    assert_eq!(site.retries, Some(9));
}

#[test]
fn where_a_site_was_left_is_kept_and_can_be_dropped() {
    let mut config = Config::at("visited");
    assert_eq!(config.visited("abc"), None, "nowhere yet");
    assert!(config.remember_visit("abc", "/var/www"));
    assert!(config.remember_visit("def", "/srv"));
    assert!(!config.remember_visit("abc", "/var/www"), "twice in the same place is not a second place");
    assert_eq!(config.visited("abc").as_deref(), Some("/var/www"));
    assert_eq!(config.visited("def").as_deref(), Some("/srv"));
    assert!(config.forget_visit("abc"));
    assert_eq!(config.visited("abc"), None);
    assert_eq!(config.visited("def").as_deref(), Some("/srv"));
    assert!(!config.forget_visit("abc"), "forgetting what was never there changes nothing");
    assert!(config.remember_visit("def", "/elsewhere"));
    assert_eq!(config.visited("def").as_deref(), Some("/elsewhere"));
}

#[test]
fn an_accepted_certificate_is_accepted_for_that_host_and_port_only() {
    let mut config = Config::at("certs");
    config.accept_certificate("example.org", 21, "AA:BB:CC");
    assert_eq!(
        config.certificate_exceptions().decision_for("example.org", 21),
        CertificateDecision::Trust { fingerprint: "AA:BB:CC".into() }
    );
    assert_eq!(
        config.certificate_exceptions().decision_for("example.org", 990),
        CertificateDecision::TrustedOnly
    );
    config.forget_certificate("example.org", 21);
    assert_eq!(
        config.certificate_exceptions().decision_for("example.org", 21),
        CertificateDecision::TrustedOnly
    );
}

#[test]
fn settings_can_be_replaced() {
    let mut config = Config::at("settings");
    let settings = Settings { concurrency: Some(3), keep_permissions: true, ..Default::default() };
    config.set_settings(settings.clone());
    assert_eq!(config.settings(), &settings);
}

#[test]
fn a_name_that_would_not_survive_a_file_system_is_made_to() {
    assert_eq!(safe_segment("Kunde: Müller/Web"), "Kunde- Müller-Web");
    assert_eq!(safe_segment(".."), "unnamed");
    assert_eq!(safe_segment("   "), "unnamed");
    assert_eq!(safe_segment("Größe & Maß"), "Größe & Maß");
}

#[test]
fn trailing_dots_and_control_characters_do_not_survive_either() {
    assert_eq!(safe_segment("name..."), "name");
    assert_eq!(safe_segment("a\tb"), "a-b");
    assert_eq!(safe_segment("."), "unnamed");
}

#[test]
fn a_folder_becomes_its_safe_segments() {
    assert_eq!(Sites::folder_segments("Kunden//Müller:GmbH/"), vec!["Kunden", "Müller-GmbH"]);
    assert!(Sites::folder_segments("").is_empty());
    assert_eq!(Sites::file_name("Web/Server"), "Web-Server.json");
}

#[test]
fn an_identifier_is_time_and_count_in_hex() {
    assert_eq!(Site::id_from(0x18c2_ab00, 10), "18c2ab00-a");
    assert_eq!(Site::id_from(0, 0), "0-0");
}
