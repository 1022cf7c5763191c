use amberbeam_core::config::AuthKind;
use amberbeam_core::import::ini::{parse as parse_ini, unescape};
use amberbeam_core::import::openssh::{glob, parse as parse_ssh};
use amberbeam_core::import::{decode, latin, source_of, Found, Imported, Source};

#[test]
fn sections_and_keys_come_out_in_order() {
    let text = "\
; a comment
[Sessions\\Kunden/Web]
HostName=example.org
PortNumber=2222

# another comment
[Sessions\\Zweiter]
HostName=zwei.example
";
    let sections = parse_ini(text);
    assert_eq!(sections.len(), 2);
    assert_eq!(sections[0].name, "Sessions\\Kunden/Web");
    assert_eq!(sections[0].get("hostname"), Some("example.org"));
    assert_eq!(sections[0].number::<u16>("PortNumber"), Some(2222));
    assert_eq!(sections[1].get("HostName"), Some("zwei.example"));
}

#[test]
fn a_value_is_kept_exactly_as_written() {
    let sections = parse_ini("[s]\nPassword=a=b= \nEmpty=");
    assert_eq!(sections[0].get("Password"), Some("a=b= "));
    assert_eq!(sections[0].get("Empty"), Some(""));
}

#[test]
fn escaped_names_come_back() {
    assert_eq!(unescape("my%20session"), "my session");
    assert_eq!(unescape("Kunden/M%C3%BCller"), "Kunden/Müller");
    assert_eq!(unescape("100%"), "100%");
    assert_eq!(unescape("a%zz"), "a%zz");
}

#[test]
fn keys_before_any_section_go_under_the_empty_name() {
    let sections = parse_ini("stray=1\n[a]\nno equals here\nk=v\r\n");
    assert_eq!(sections.len(), 2);
    assert_eq!(sections[0].name, "");
    assert_eq!(sections[0].get("stray"), Some("1"));
    assert_eq!(sections[1].entries.len(), 1);
    assert_eq!(sections[1].get("K"), Some("v"));
    assert_eq!(sections[1].get("missing"), None);
    assert_eq!(sections[1].number::<u16>("k"), None);
    assert_eq!(parse_ini("[empty]\n").len(), 1);
    assert_eq!(parse_ini("; nothing\n").len(), 0);
}

#[test]
fn a_number_too_large_for_its_type_is_no_number() {
    let sections = parse_ini("[a]\nport=70000\nsmall=255\n");
    assert_eq!(sections[0].number::<u16>("port"), None);
    assert_eq!(sections[0].number::<u32>("port"), Some(70000));
    assert_eq!(sections[0].number::<u8>("small"), Some(255));
}

#[test]
fn text_is_read_as_utf8_when_it_is_utf8() {
    assert_eq!(decode("Größe & Maß".as_bytes()), "Größe & Maß");
    let mut with_bom = vec![0xEF, 0xBB, 0xBF];
    with_bom.extend_from_slice("Kunden".as_bytes());
    assert_eq!(decode(&with_bom), "Kunden");
}

#[test]
fn text_that_is_not_utf8_is_read_as_windows_1252() {
    assert_eq!(decode(&[0x47, 0x72, 0xF6, 0xDF, 0x65]), "Größe");
    assert_eq!(decode(&[0x80, 0xFF]), "€ÿ");
    assert_eq!(decode(&[0x93, 0x94]), "“”");
}

#[test]
fn the_bytes_windows_1252_leaves_open_become_replacement_characters() {
    assert_eq!(latin(0x81), '\u{FFFD}');
    assert_eq!(latin(0x41), 'A');
    assert_eq!(latin(0x9F), 'Ÿ');
}

#[test]
fn an_empty_password_is_no_password() {
    let entry = Imported::named("Webserver").with_password(Some(String::new()));
    assert!(!entry.has_password);
    assert!(entry.password.is_none());
}

#[test]
fn a_password_is_kept_with_its_entry() {
    let entry = Imported::named("Webserver").with_password(Some("tannenbaum".to_string()));
    assert!(entry.has_password);
    assert_eq!(entry.password.as_deref(), Some("tannenbaum"));
    assert_eq!(entry.port, 22);
    assert_eq!(entry.auth, AuthKind::Password);
}

#[test]
fn every_source_names_a_translation_key() {
    for source in [
        Source::SshConfig,
        Source::WinScp,
        Source::WcxFtp,
        Source::FileZilla,
        Source::SitesDat,
        Source::SitesXml,
    ] {
        assert!(source.message_key().starts_with("import.source."));
    }
}

#[test]
fn a_file_called_config_is_not_taken_for_an_ssh_configuration() {
    assert_eq!(source_of("config"), None);
    assert_eq!(source_of("WinSCP.ini"), Some(Source::WinScp));
    assert_eq!(source_of("winscp.ini"), Some(Source::WinScp));
    assert_eq!(source_of("wcx_ftp.ini"), Some(Source::WcxFtp));
    assert_eq!(source_of("Sites.dat"), Some(Source::SitesDat));
    assert_eq!(source_of("holiday.jpg"), None);
}

const SAMPLE: &str = r#"
# A comment
Host web kunde-web
    HostName example.org
    User dennis
    Port 2222
    IdentityFile ~/.ssh/id_ed25519

Host datenbank
    HostName db.example.org

Host *
    User fallback
    ServerAliveInterval 60
"#;

fn parsed() -> Found {
    parse_ssh(SAMPLE, "config")
}

#[test]
fn every_name_of_a_host_becomes_an_entry() {
    let found = parsed();
    let names: Vec<&str> = found.entries.iter().map(|e| e.name.as_str()).collect();
    assert_eq!(names, vec!["web", "kunde-web", "datenbank"]);
    assert_eq!(found.source, Source::SshConfig);
    assert_eq!(found.path, "config");
}

#[test]
fn a_pattern_is_a_rule_and_not_a_server() {
    assert!(parsed().entries.iter().all(|e| e.name != "*"));
}

#[test]
fn the_first_value_wins_so_a_fallback_fills_gaps() {
    let found = parsed();
    let web = &found.entries[0];
    assert_eq!(web.host, "example.org");
    assert_eq!(web.user, "dennis", "the specific block, not the fallback");
    assert_eq!(web.port, 2222);
    assert_eq!(web.auth, AuthKind::KeyFile);
    assert_eq!(web.key_path.as_deref(), Some("~/.ssh/id_ed25519"));

    let db = found.entries.iter().find(|e| e.name == "datenbank").unwrap();
    assert_eq!(db.host, "db.example.org");
    assert_eq!(db.user, "fallback", "what Host * left for it");
    assert_eq!(db.port, 22);
    assert_eq!(db.auth, AuthKind::Agent);
}

#[test]
fn nothing_here_carries_a_password_because_there_is_none_to_carry() {
    assert!(parsed().entries.iter().all(|e| !e.has_password));
}

#[test]
fn keywords_may_be_separated_by_an_equals_sign() {
    let found = parse_ssh("Host=eins\nHostName=eins.example\n", "config");
    assert_eq!(found.entries.len(), 1);
    assert_eq!(found.entries[0].host, "eins.example");
}

#[test]
fn a_quoted_value_loses_its_quotes_and_a_bad_port_falls_back() {
    let found = parse_ssh("Host q\n  User \"a b\"\n  Port nonsense\n", "config");
    assert_eq!(found.entries[0].user, "a b");
    assert_eq!(found.entries[0].port, 22);
    assert_eq!(found.entries[0].host, "q");
}

#[test]
fn patterns_match_the_way_ssh_matches_them() {
    assert!(glob("*", "anything"));
    assert!(glob("*.example.org", "web.example.org"));
    assert!(!glob("*.example.org", "example.org"));
    assert!(glob("web?", "web1"));
    assert!(!glob("web?", "web12"));
    assert!(glob("kunde-*-web", "kunde-müller-web"));
}
