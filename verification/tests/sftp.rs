use amberbeam_core::fs::EntryKind;
use amberbeam_core::sftp::row_from_attributes;
use amberbeam_core::error::Error;
use amberbeam_core::import::xml::from_base64;
use amberbeam_core::sftp::hostkey::{verify, PublicKey, Verdict};
use amberbeam_core::sftp::{fingerprint, AuthMethod, HostKeyDecision};

const KEYS: [&str; 3] = [
    "ssh-ed25519 AAAAC3NzaC1lZDI1NTE5AAAAIMzoeu1zYAjIT/oNaHRbkjXLzDRdplZkXUDe8T93J3tZ one",
    "ssh-ed25519 AAAAC3NzaC1lZDI1NTE5AAAAINH6yEuCsH/3RPsjeOUod8ElN7x9cWbT/dGfdCTbFN/F two",
    "ssh-ed25519 AAAAC3NzaC1lZDI1NTE5AAAAIOtBfs9ZFUTiJmMls0Jrq6jgLiswUt1l6nmgrhHMQndp three",
];

fn key(index: usize) -> PublicKey {
    let field = KEYS[index].split_whitespace().nth(1).expect("a key field");
    PublicKey { blob: from_base64(field).expect("base64") }
}

#[test]
fn a_password_never_reaches_a_log_line() {
    let method = AuthMethod::Password { password: "hunter2".into() };
    assert_eq!(method.described(), "Password");
}

#[test]
fn a_key_file_shows_its_path_but_not_its_passphrase() {
    let method = AuthMethod::KeyFile {
        path: "/home/dennis/.ssh/id_ed25519".into(),
        passphrase: Some("hunter2".into()),
    };
    let shown = method.described();
    assert!(shown.contains("id_ed25519"));
    assert!(shown.contains("encrypted: true"));
    assert!(!shown.contains("hunter2"));
    let plain = AuthMethod::KeyFile { path: "a\"b".into(), passphrase: None };
    assert_eq!(plain.described(), "KeyFile { path: \"a\\\"b\", encrypted: false }");
    assert_eq!(AuthMethod::Agent.described(), "Agent");
}

#[test]
fn every_method_names_a_translation_key() {
    for method in [
        AuthMethod::Password { password: String::new() },
        AuthMethod::KeyFile { path: String::new(), passphrase: None },
        AuthMethod::Agent,
    ] {
        assert!(method.label_key().starts_with("auth."));
    }
    assert_eq!(AuthMethod::Agent.label_key(), "auth.agent");
}

#[test]
fn fingerprints_match_what_ssh_keygen_prints() {
    assert_eq!(fingerprint(&key(0)), "SHA256:jVQP2dXZo1RnhVBNG4taowQS5nSg/wCI0K30hzuu90o");
}

#[test]
fn a_recorded_key_connects_without_asking() {
    let mut verdict = Verdict::shared();
    assert!(verify("example.org", &key(0), &HostKeyDecision::KnownOnly, &mut verdict, &[key(0)]));
    assert!(verdict.take_refusal().is_none());
    assert!(verdict.take_to_learn().is_none());
}

#[test]
fn an_unknown_key_stops_and_reports_its_fingerprint() {
    let mut verdict = Verdict::shared();
    assert!(!verify("example.org", &key(0), &HostKeyDecision::KnownOnly, &mut verdict, &[]));
    match verdict.take_refusal().expect("a refusal") {
        Error::HostKeyUnknown { fingerprint, .. } => {
            assert_eq!(fingerprint, "SHA256:jVQP2dXZo1RnhVBNG4taowQS5nSg/wCI0K30hzuu90o");
        }
        _ => panic!("wrong refusal"),
    }
}

#[test]
fn accepting_a_fingerprint_lets_exactly_that_key_through() {
    let mut verdict = Verdict::shared();
    let decision = HostKeyDecision::Trust { fingerprint: fingerprint(&key(0)) };
    assert!(verify("example.org", &key(0), &decision, &mut verdict, &[]));
    assert_eq!(verdict.take_to_learn(), Some(key(0)));
}

#[test]
fn accepting_one_fingerprint_does_not_accept_another_key() {
    let mut verdict = Verdict::shared();
    let decision = HostKeyDecision::Trust { fingerprint: fingerprint(&key(0)) };
    assert!(!verify("example.org", &key(1), &decision, &mut verdict, &[]));
    assert!(matches!(verdict.take_refusal(), Some(Error::HostKeyUnknown { .. })));
}

#[test]
fn a_changed_key_is_refused_even_when_the_user_just_accepted_it() {
    let mut verdict = Verdict::shared();
    let decision = HostKeyDecision::Trust { fingerprint: fingerprint(&key(1)) };
    assert!(!verify("example.org", &key(1), &decision, &mut verdict, &[key(0)]));
    match verdict.take_refusal().expect("a refusal") {
        Error::HostKeyChanged { fingerprint: shown, known_fingerprint, .. } => {
            assert_eq!(shown, fingerprint(&key(1)));
            assert_eq!(known_fingerprint, fingerprint(&key(0)));
        }
        _ => panic!("wrong refusal"),
    }
    assert!(verdict.take_to_learn().is_none());
}

#[test]
fn a_second_recorded_key_still_counts_as_known() {
    let mut verdict = Verdict::shared();
    assert!(verify("example.org", &key(2), &HostKeyDecision::KnownOnly, &mut verdict, &[key(0), key(2)]));
}

#[test]
fn the_first_attempt_connects_only_to_known_keys() {
    assert_eq!(HostKeyDecision::default(), HostKeyDecision::KnownOnly);
}

#[test]
fn an_sftp_entry_becomes_a_row_and_the_dots_do_not() {
    assert!(row_from_attributes(".", true, false, false, None, None, None, None, None, None, None, None, None).is_none());
    assert!(row_from_attributes("..", true, false, false, None, None, None, None, None, None, None, None, None).is_none());
    let file = row_from_attributes(
        "index.html", false, true, false, Some(15), Some(1_700_000_000), Some(0o100644), None, Some(1000), Some("www".into()), Some(33), None, None,
    )
    .unwrap();
    assert_eq!(file.kind, EntryKind::File);
    assert_eq!(file.size, Some(15));
    assert_eq!(file.modified, Some(1_700_000_000));
    assert_eq!(file.permissions.unwrap().0, 0o644);
    assert_eq!(file.owner.as_deref(), Some("1000"));
    assert_eq!(file.group.as_deref(), Some("www"));
    let dir = row_from_attributes("img", true, false, false, Some(4096), None, None, None, None, None, None, Some("x".into()), None).unwrap();
    assert_eq!(dir.size, None);
    assert_eq!(dir.link_target, None);
    let link = row_from_attributes("current", false, false, true, None, None, None, None, None, None, None, Some("releases/7".into()), Some(EntryKind::Directory)).unwrap();
    assert_eq!(link.kind, EntryKind::Symlink);
    assert_eq!(link.link_target.as_deref(), Some("releases/7"));
    assert_eq!(link.kind_of_target, Some(EntryKind::Directory));
}
