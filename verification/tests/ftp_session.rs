use amberbeam_core::error::{Error, PathProblem};
use amberbeam_core::ftp::tls::{
    accept_untrusted, fingerprint, CertificateDecision, CertificateFacts, CertificateProblem,
    Exceptions, Verdict,
};
use amberbeam_core::ftp::{
    clamped_connections, login_failure, lowered_limit, reply_problem, wants_data_channel,
    Abilities, Encryption, FtpParams,
};

#[test]
fn the_commands_that_open_a_second_connection_are_known() {
    for command in [
        "RETR datei.txt",
        "retr datei.txt",
        "  STOR neu.bin",
        "LIST",
        "NLST /var/www",
        "MLSD",
        "PASV",
        "EPSV",
        "APPE log.txt",
    ] {
        assert!(wants_data_channel(command), "{command}");
    }
    for command in ["PWD", "NOOP", "SITE CHMOD 644 x", "MDTM a", "SIZE a", "FEAT", "TYPE I"] {
        assert!(!wants_data_channel(command), "{command}");
    }
}

#[test]
fn a_verb_that_merely_starts_like_one_is_not_one() {
    assert!(!wants_data_channel("RETRY"));
    assert!(!wants_data_channel("LISTEN now"));
    assert!(!wants_data_channel(""));
}

#[test]
fn a_refused_write_says_it_was_refused_and_not_that_it_was_missing() {
    assert_eq!(
        reply_problem(553, "553 Can't open that file: Permission denied"),
        PathProblem::PermissionDenied
    );
    assert_eq!(reply_problem(550, "550 Permission denied"), PathProblem::PermissionDenied);
    assert_eq!(reply_problem(550, "550 No such file or directory"), PathProblem::NotFound);
    assert_eq!(reply_problem(550, "550 Requested action not taken"), PathProblem::NotFound);
    assert_eq!(reply_problem(553, "553 Requested action not taken"), PathProblem::Unknown);
    assert_eq!(reply_problem(530, "530 Login incorrect"), PathProblem::PermissionDenied);
}

#[test]
fn features_say_what_the_server_can_do() {
    let features = vec![
        ("MLST".to_string(), Some("type*;size*".to_string())),
        ("rest".to_string(), Some("stream".to_string())),
        ("UTF8".to_string(), None),
        ("EPSV".to_string(), None),
    ];
    let abilities = Abilities::from_features(&features);
    assert!(abilities.mlsd, "MLST covers MLSD too");
    assert!(abilities.rest);
    assert!(abilities.utf8 && abilities.epsv);
    assert!(!abilities.size && !abilities.mfmt);
    let bare = Abilities::from_features(&[("REST".to_string(), None)]);
    assert!(!bare.rest, "REST without STREAM offers no byte offsets");
}

fn params() -> FtpParams {
    FtpParams {
        host: "example.org".into(),
        port: 21,
        user: "dennis".into(),
        password: String::new(),
        encryption: Encryption::default(),
        passive: true,
        concurrency: 4,
        retries: 5,
        temporary_name: true,
        keep_alive: None,
        latin1: false,
        certificate: CertificateDecision::TrustedOnly,
    }
}

#[test]
fn a_login_refused_for_want_of_tls_says_so() {
    assert_eq!(Encryption::default(), Encryption::Explicit);
    match login_failure(Some(" 530 TLS required on this server "), &params()) {
        Error::EncryptionRequired { host, detail } => {
            assert_eq!(host, "example.org");
            assert_eq!(detail, "530 TLS required on this server");
        }
        other => panic!("{other:?}"),
    }
    assert!(matches!(
        login_failure(Some("530 Login incorrect"), &params()),
        Error::AuthenticationFailed { .. }
    ));
    assert!(matches!(login_failure(None, &params()), Error::AuthenticationFailed { .. }));
}

#[test]
fn a_refused_login_halves_the_connections_but_keeps_one() {
    assert_eq!(lowered_limit(8), 4);
    assert_eq!(lowered_limit(5), 3);
    assert_eq!(lowered_limit(1), 1);
    assert_eq!(clamped_connections(0), 1);
    assert_eq!(clamped_connections(500), 64);
    assert_eq!(clamped_connections(7), 7);
}

const CERTIFICATE: &[u8] = b"a certificate, as far as this test is concerned";
const ANOTHER: &[u8] = b"a different certificate entirely";

#[test]
fn a_fingerprint_reads_like_the_one_openssl_prints() {
    let printed = fingerprint(CERTIFICATE);
    assert_eq!(printed.len(), 32 * 3 - 1, "32 bytes, colon separated");
    assert!(printed.chars().all(|c| c.is_ascii_hexdigit() || c == ':'));
    assert!(printed
        .chars()
        .filter(|c| c.is_alphabetic())
        .all(|c| c.is_uppercase()));
    assert_eq!(printed, fingerprint(CERTIFICATE));
    assert_ne!(printed, fingerprint(ANOTHER));
    assert!(fingerprint(b"").starts_with("E3:B0:C4:42"));
}

#[test]
fn an_untrusted_certificate_is_refused_and_described() {
    let mut verdict = Verdict::default();
    assert!(!accept_untrusted(
        "example.org",
        CERTIFICATE,
        CertificateProblem::UnknownIssuer,
        "no issuer this machine knows",
        &CertificateDecision::TrustedOnly,
        &mut verdict,
    ));
    let facts = verdict.take().expect("a refusal");
    assert_eq!(facts.problem, CertificateProblem::UnknownIssuer);
    assert!(!facts.detail.is_empty());
    assert_eq!(facts.fingerprint, fingerprint(CERTIFICATE));
    assert_eq!(facts.host, "example.org");
}

#[test]
fn accepting_a_fingerprint_lets_exactly_that_certificate_through() {
    let mut verdict = Verdict::default();
    let decision = CertificateDecision::Trust {
        fingerprint: fingerprint(CERTIFICATE),
    };
    assert!(accept_untrusted(
        "example.org",
        CERTIFICATE,
        CertificateProblem::UnknownIssuer,
        "no issuer this machine knows",
        &decision,
        &mut verdict,
    ));
    assert!(verdict.take().is_none());
}

#[test]
fn a_different_certificate_on_the_same_host_asks_again() {
    let mut verdict = Verdict::default();
    let decision = CertificateDecision::Trust {
        fingerprint: fingerprint(CERTIFICATE),
    };
    assert!(!accept_untrusted(
        "example.org",
        ANOTHER,
        CertificateProblem::Expired,
        "the certificate expired last March",
        &decision,
        &mut verdict,
    ));
    assert_eq!(verdict.take().expect("a refusal").problem, CertificateProblem::Expired);
}

#[test]
fn every_problem_names_a_translation_key() {
    for problem in [
        CertificateProblem::UnknownIssuer,
        CertificateProblem::Expired,
        CertificateProblem::Revoked,
        CertificateProblem::Broken,
        CertificateProblem::NotYetValid,
        CertificateProblem::WrongName,
        CertificateProblem::Other,
    ] {
        assert!(problem.message_key().starts_with("certificate."));
    }
    assert_ne!(
        CertificateProblem::UnknownIssuer.message_key(),
        CertificateProblem::Expired.message_key()
    );
}

#[test]
fn a_handshake_is_noted_whether_or_not_the_certificate_passes() {
    let mut verdict = Verdict::default();
    assert!(!verdict.handshaked());
    verdict.saw_certificate();
    assert!(verdict.handshaked());
    verdict.refuse(CertificateFacts {
        host: "example.org".into(),
        fingerprint: fingerprint(CERTIFICATE),
        problem: CertificateProblem::Expired,
        detail: "the certificate expired last March".into(),
    });
    assert!(verdict.take().is_some());
    assert!(verdict.handshaked());
}

#[test]
fn an_exception_belongs_to_one_host_and_port() {
    let mut exceptions = Exceptions::default();
    exceptions.accept("example.org", 21, "AA:BB");
    assert_eq!(
        exceptions.decision_for("example.org", 21),
        CertificateDecision::Trust {
            fingerprint: "AA:BB".into()
        }
    );
    assert_eq!(
        exceptions.decision_for("example.org", 990),
        CertificateDecision::TrustedOnly
    );
    assert_eq!(
        exceptions.decision_for("other.example", 21),
        CertificateDecision::TrustedOnly
    );
    exceptions.accept("example.org", 21, "CC:DD");
    assert_eq!(exceptions.accepted.len(), 1, "a second answer replaces the first");
    assert_eq!(Exceptions::key("example.org", 21), "example.org:21");
    exceptions.forget("example.org", 21);
    assert_eq!(
        exceptions.decision_for("example.org", 21),
        CertificateDecision::TrustedOnly
    );
}
