use amberbeam_core::commands::{certificate_to_keep, fill_secret, prepare_site, remember_path, site_row, ConnectRequest, EnqueueBody, SecretKind};
use amberbeam_core::config::{AuthKind, Config, QuickConnectEntry, Settings};
use amberbeam_core::endpoint::{EndpointId, Protocol};
use amberbeam_core::events::{log_line, Event, LogDirection};
use amberbeam_core::ftp::tls::{CertificateDecision, Exceptions};
use amberbeam_core::ftp::Encryption;
use amberbeam_core::secrets::{MemoryStore, Secret, SecretStore};
use amberbeam_core::sftp::{AuthMethod, HostKeyDecision};
use amberbeam_core::sites::{Filed, Site};
use amberbeam_core::transfer::ConflictPolicy;
use amberbeam_core::CoreInfo;

fn request(protocol: Protocol) -> ConnectRequest {
    ConnectRequest {
        endpoint: "right".into(),
        site_id: None,
        protocol,
        host: "example.org".into(),
        port: 21,
        user: "dennis".into(),
        auth: AuthKind::Password,
        password: Some("tannenbaum".into()),
        key_path: None,
        passphrase: None,
        accept_fingerprint: None,
        concurrency: None,
        retries: None,
        temporary_name: None,
        encryption: Encryption::Implicit,
        passive: None,
        latin1: None,
        keep_alive: Some(30),
        accept_certificate: None,
    }
}

fn site(id: &str, remember: bool) -> Site {
    Site {
        id: id.into(),
        name: "Web".into(),
        protocol: Protocol::Sftp,
        host: "example.org".into(),
        port: 22,
        user: "someone".into(),
        auth: AuthKind::Password,
        key_path: None,
        remote_path: None,
        remember_path: false,
        local_path: None,
        concurrency: 8,
        retries: None,
        temporary_name: None,
        encryption: None,
        passive: None,
        latin1: None,
        keep_alive: None,
        remember_password: remember,
        wastebasket: None,
        count_before_delete: true,
        mcp_see: false,
        mcp_upload: false,
        mcp_download: false,
        mcp_create: false,
        mcp_rename: false,
        mcp_remove: false,
        excludes: Vec::new(),
        colour: None,
    }
}

#[test]
fn the_core_reports_every_protocol_of_version_one() {
    let info = CoreInfo::of("0.1.0", "x86_64", "linux");
    assert_eq!(info.protocols.len(), 4);
    assert!(!info.version.is_empty());
    assert!(!info.arch.is_empty());
    assert!(!info.os.is_empty());
    assert_eq!(info.protocols[0].protocol, Protocol::Sftp);
    assert_eq!(info.protocols[0].default_concurrency, 8);
    assert_eq!(info.protocols[0].default_port, Some(22));
    assert!(info.protocols[0].encrypted);
    assert!(!info.protocols[1].encrypted);
}

#[test]
fn plain_ftp_is_plain_whatever_else_the_request_says() {
    let params = request(Protocol::Ftp).into_ftp_params(&Settings::default(), &Exceptions::default());
    assert_eq!(params.encryption, Encryption::Plain);
    assert!(params.passive, "passive unless asked otherwise");
    assert_eq!(params.concurrency, 4);
    assert_eq!(params.retries, 5);
    assert_eq!(params.keep_alive, Some(30));
    assert!(!params.latin1);
    assert_eq!(params.certificate, CertificateDecision::TrustedOnly);

    let secured = request(Protocol::Ftps).into_ftp_params(&Settings::default(), &Exceptions::default());
    assert_eq!(secured.encryption, Encryption::Implicit);
}

#[test]
fn a_certificate_accepted_before_still_counts_for_that_host_and_port() {
    let mut stored = Exceptions::default();
    stored.accept("example.org", 21, "AA:BB");
    let params = request(Protocol::Ftps).into_ftp_params(&Settings::default(), &stored);
    assert_eq!(params.certificate, CertificateDecision::Trust { fingerprint: "AA:BB".into() });
    let now = ConnectRequest { accept_certificate: Some("CC:DD".into()), ..request(Protocol::Ftps) };
    let params = now.into_ftp_params(&Settings::default(), &stored);
    assert_eq!(params.certificate, CertificateDecision::Trust { fingerprint: "CC:DD".into() });
}

#[test]
fn an_sftp_attempt_takes_the_request_then_the_settings_then_the_protocol() {
    let settings = Settings { concurrency: Some(3), ..Settings::default() };
    let params = ConnectRequest { protocol: Protocol::Sftp, port: 22, ..request(Protocol::Sftp) }.into_params(&settings);
    assert_eq!(params.concurrency, 3);
    assert!(matches!(params.method, AuthMethod::Password { ref password } if password == "tannenbaum"));
    assert_eq!(params.host_key, HostKeyDecision::KnownOnly);

    let own = ConnectRequest {
        concurrency: Some(2),
        auth: AuthKind::KeyFile,
        key_path: Some("/k".into()),
        accept_fingerprint: Some("SHA256:x".into()),
        ..request(Protocol::Sftp)
    }
    .into_params(&Settings::default());
    assert_eq!(own.concurrency, 2);
    assert!(matches!(own.method, AuthMethod::KeyFile { ref path, passphrase: None } if path == "/k"));
    assert_eq!(own.host_key, HostKeyDecision::Trust { fingerprint: "SHA256:x".into() });
    let plain = request(Protocol::Sftp).into_params(&Settings::default());
    assert_eq!(plain.concurrency, 8);
}

#[test]
fn the_history_keeps_ftp_settings_only_for_ftp() {
    let ftp = request(Protocol::Ftps).history_entry(1_700_000_000);
    assert_eq!(ftp.id, "dennis@example.org:21");
    assert_eq!(ftp.encryption, Some(Encryption::Implicit));
    assert_eq!(ftp.passive, Some(true));
    assert_eq!(ftp.latin1, Some(false));
    assert_eq!(ftp.last_used, 1_700_000_000);
    let sftp = request(Protocol::Sftp).history_entry(5);
    assert_eq!(sftp.encryption, None);
    assert_eq!(sftp.passive, None);
    assert_eq!(sftp.latin1, None);
}

#[test]
fn an_enqueued_selection_asks_before_overwriting() {
    let body = EnqueueBody {
        source_endpoint: "left".into(),
        source_directory: "/a".into(),
        names: vec!["x".into()],
        target_endpoint: "right".into(),
        target_directory: "/b".into(),
    };
    let request = body.into_request(&Settings::default());
    assert_eq!(request.conflict_policy, ConflictPolicy::Ask);
    assert_eq!(request.retries, Some(5));
    assert_eq!(request.source_endpoint, EndpointId("left".into()));
    assert!(request.use_temporary_name);
}

#[test]
fn a_row_says_whether_there_is_a_password_but_not_which() {
    let mut session = MemoryStore::default();
    session.set("s-2", Secret::Password, "typed").unwrap();
    let kept = site_row(Filed { folder: "".into(), site: site("s-1", true) }, &session);
    assert!(kept.has_password);
    assert!(!kept.has_session_password);
    let typed = site_row(Filed { folder: "Kunden".into(), site: site("s-2", false) }, &session);
    assert!(!typed.has_password);
    assert!(typed.has_session_password);
    assert_eq!(typed.folder, "Kunden");
}

#[test]
fn a_new_entry_gets_its_identifier_and_a_forgotten_password_goes() {
    let (fresh, forget) = prepare_site(site("", false), "new-1");
    assert_eq!(fresh.id, "new-1");
    assert!(forget);
    let (kept, forget) = prepare_site(site("old", true), "new-2");
    assert_eq!(kept.id, "old");
    assert!(!forget);
}

#[test]
fn where_a_history_entry_was_left_moves_it_to_the_top() {
    let mut config = Config::at("x");
    let mut first = request(Protocol::Sftp).history_entry(10);
    first.user = "a".into();
    first.id = QuickConnectEntry::id_for("a", "example.org", 21);
    config.remember_quick_connect(first);
    config.remember_quick_connect(request(Protocol::Sftp).history_entry(20));
    assert!(remember_path(&mut config, "a@example.org:21", "/srv", 30));
    let history = config.quick_connect();
    assert_eq!(history[0].user, "a");
    assert_eq!(history[0].last_path.as_deref(), Some("/srv"));
    assert!(!remember_path(&mut config, "nobody@x:1", "/", 40));
}

#[test]
fn a_secret_kind_is_the_secret_it_names() {
    assert_eq!(Secret::from(SecretKind::Password), Secret::Password);
    assert_eq!(Secret::from(SecretKind::Passphrase), Secret::Passphrase);
}

#[test]
fn a_log_line_is_an_event_of_its_own() {
    let e = log_line(&EndpointId("server-a".into()), LogDirection::Sent, "MLSD /var/www");
    assert_eq!(
        e,
        Event::Log {
            endpoint: EndpointId("server-a".into()),
            direction: LogDirection::Sent,
            text: "MLSD /var/www".into(),
        }
    );
}

#[test]
fn a_secret_the_window_sent_is_used_as_it_is() {
    let mut kept = MemoryStore::default();
    kept.set("s1", Secret::Password, "kept").unwrap();
    let session = MemoryStore::default();
    let r = fill_secret(Some("typed".into()), "s1", Secret::Password, &kept, &session);
    assert_eq!(r, Ok(Some("typed".to_string())));
}

#[test]
fn the_kept_secret_wins_over_the_one_for_this_run() {
    let mut kept = MemoryStore::default();
    kept.set("s1", Secret::Password, "kept").unwrap();
    let mut session = MemoryStore::default();
    session.set("s1", Secret::Password, "session").unwrap();
    let r = fill_secret(None, "s1", Secret::Password, &kept, &session);
    assert_eq!(r, Ok(Some("kept".to_string())));
}

#[test]
fn the_secret_for_this_run_is_used_when_none_is_kept() {
    let kept = MemoryStore::default();
    let mut session = MemoryStore::default();
    session.set("s1", Secret::Passphrase, "session").unwrap();
    assert_eq!(
        fill_secret(None, "s1", Secret::Passphrase, &kept, &session),
        Ok(Some("session".to_string()))
    );
    assert_eq!(fill_secret(None, "s1", Secret::Password, &kept, &session), Ok(None));
}

#[test]
fn an_accepted_certificate_is_kept_only_after_the_connection_worked() {
    let worked: Result<(), amberbeam_core::error::Error> = Ok(());
    let refused: Result<(), amberbeam_core::error::Error> =
        Err(amberbeam_core::error::Error::AuthenticationFailed { user: "dennis".into() });
    assert_eq!(certificate_to_keep(&worked, Some("SHA256:abc".into())), Some("SHA256:abc".to_string()));
    assert_eq!(certificate_to_keep(&refused, Some("SHA256:abc".into())), None);
    assert_eq!(certificate_to_keep(&worked, None), None);
}
