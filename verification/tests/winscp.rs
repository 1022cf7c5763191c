use amberbeam_core::endpoint::Protocol;
use amberbeam_core::ftp::Encryption;
use amberbeam_core::import::winscp::{decode, default_port, parse, FLAG, MAGIC};
use amberbeam_core::import::Source;

/// The method in reverse, as the program writes a password.
fn encode(password: &str, user: &str, host: &str) -> String {
    let mut plain = format!("{user}{host}").into_bytes();
    let length = plain.len() + password.len();
    plain.extend_from_slice(password.as_bytes());

    let mut bytes = vec![FLAG, 0x00, length as u8, 0x00];
    bytes.extend_from_slice(&plain);
    bytes
        .into_iter()
        .map(|byte| format!("{:02X}", (!byte) ^ MAGIC))
        .collect()
}

/// The older form: a length, no filler, the password alone.
fn encode_older(password: &str) -> String {
    let mut bytes = vec![password.len() as u8, 0x00];
    bytes.extend_from_slice(password.as_bytes());
    bytes
        .into_iter()
        .map(|byte| format!("{:02X}", (!byte) ^ MAGIC))
        .collect()
}

#[test]
fn winscp_a_stored_password_comes_back() {
    let stored = encode("tannenbaum", "dennis", "example.org");
    assert_eq!(
        decode(&stored, "dennis", "example.org").as_deref(),
        Some("tannenbaum")
    );
}

#[test]
fn the_older_form_needs_no_user_or_host() {
    let stored = encode_older("tannenbaum");
    assert_eq!(decode(&stored, "wer", "auch.immer").as_deref(), Some("tannenbaum"));
}

#[test]
fn a_password_stored_for_another_server_is_not_accepted() {
    let stored = encode("tannenbaum", "dennis", "example.org");
    assert_eq!(decode(&stored, "dennis", "other.example"), None);
    assert_eq!(decode(&stored, "jemand", "example.org"), None);
}

#[test]
fn winscp_nonsense_decodes_to_nothing_rather_than_to_rubbish() {
    assert_eq!(decode("", "u", "h"), None);
    assert_eq!(decode("zz", "u", "h"), None);
    assert_eq!(decode("A3", "u", "h"), None);
}

#[test]
fn a_session_name_carries_its_folder() {
    let text = format!(
        "[Sessions\\Kunden/M%C3%BCller/Web]\n\
         HostName=example.org\n\
         UserName=dennis\n\
         PortNumber=2222\n\
         FSProtocol=2\n\
         Password={}\n",
        encode("tannenbaum", "dennis", "example.org")
    );
    let found = parse(&text, "WinSCP.ini");

    assert_eq!(found.source, Source::WinScp);
    assert_eq!(found.entries.len(), 1);
    let entry = &found.entries[0];
    assert_eq!(entry.name, "Web");
    assert_eq!(entry.folder, "Kunden/Müller");
    assert_eq!(entry.protocol, Protocol::Sftp);
    assert_eq!(entry.port, 2222);
    assert!(entry.has_password);
    assert_eq!(entry.password.as_deref(), Some("tannenbaum"));
}

#[test]
fn the_protocol_and_its_encryption_come_from_the_file() {
    let text = "\
[Sessions\\Plain]
HostName=a.example
FSProtocol=5
[Sessions\\Implicit]
HostName=b.example
FSProtocol=5
FtpSecure=1
[Sessions\\Explicit]
HostName=c.example
FSProtocol=5
FtpSecure=3
[Sessions\\Cloud]
HostName=d.example
FSProtocol=7
";
    let found = parse(text, "WinSCP.ini");
    let by = |name: &str| found.entries.iter().find(|e| e.name == name);

    assert_eq!(by("Plain").unwrap().protocol, Protocol::Ftp);
    assert_eq!(by("Plain").unwrap().port, 21);
    assert_eq!(by("Implicit").unwrap().encryption, Some(Encryption::Implicit));
    assert_eq!(by("Explicit").unwrap().encryption, Some(Encryption::Explicit));
    assert!(by("Cloud").is_none());
}

#[test]
fn a_master_password_is_said_out_loud_and_nothing_is_guessed() {
    let text = "\
[Configuration\\Security]
UseMasterPassword=1
[Sessions\\Web]
HostName=example.org
UserName=dennis
Password=A35C1122
";
    let found = parse(text, "WinSCP.ini");
    assert!(found
        .warnings
        .contains(&"import.warning.master-password".to_string()));
    assert_eq!(found.entries.len(), 1, "the server is still worth having");
    assert!(!found.entries[0].has_password);
}

#[test]
fn a_key_file_makes_the_entry_a_key_login() {
    let found = parse(
        "[Sessions\\K]\nHostName=k.example\nPublicKeyFile=C:%5Ckeys%5Cid.ppk\nRemoteDirectory=/srv\n",
        "WinSCP.ini",
    );
    let e = &found.entries[0];
    assert_eq!(e.key_path.as_deref(), Some("C:\\keys\\id.ppk"));
    assert_eq!(e.remote_path.as_deref(), Some("/srv"));
    assert_eq!(e.port, 22);
    assert!(found.warnings.is_empty());
}

#[test]
fn sftp_listens_on_22_and_the_rest_on_21() {
    assert_eq!(default_port(Protocol::Sftp), 22);
    assert_eq!(default_port(Protocol::Ftp), 21);
    assert_eq!(default_port(Protocol::Ftps), 21);
}
