use amberbeam_core::bundle::{accept_version, entry_of, gather, placed, taken_indices, text_of, to_bytes, Bundle, Entry};
use amberbeam_core::error::Error;
use amberbeam_core::config::AuthKind;
use amberbeam_core::endpoint::Protocol;
use amberbeam_core::sealed::is_sealed;
use amberbeam_core::secrets::{MemoryStore, Secret, SecretStore};
use amberbeam_core::sites::{Filed, Site};
use serde_json::Value;

fn site(id: &str, name: &str) -> Site {
    Site {
        id: id.into(),
        name: name.into(),
        protocol: Protocol::Sftp,
        host: "example.org".into(),
        port: 22,
        user: "dennis".into(),
        auth: AuthKind::Password,
        key_path: None,
        remote_path: None,
        remember_path: false,
        local_path: None,
        concurrency: 8,
        retries: None,
        temporary_name: None,
        encryption: None,
        passive: None,
        latin1: None,
        keep_alive: None,
        remember_password: true,
        wastebasket: None,
        count_before_delete: true,
        mcp_see: false,
        mcp_upload: false,
        mcp_download: false,
        mcp_create: false,
        mcp_rename: false,
        mcp_remove: false,
        excludes: Vec::new(),
        colour: None,
    }
}

fn filed() -> (Vec<Filed>, MemoryStore) {
    let entry = Filed { folder: "Kunden".into(), site: site("site-1", "Webserver") };
    let mut store = MemoryStore::default();
    store.set(&entry.site.id, Secret::Password, "tannenbaum").unwrap();
    (vec![entry], store)
}

/// The JSON a caller writes for a bundle, reduced to the fields the tests
/// look at.
fn json_of(bundle: &Bundle) -> Vec<u8> {
    let mut entries = Vec::new();
    for entry in &bundle.entries {
        let mut site = serde_json::Map::new();
        site.insert("id".into(), Value::String(entry.site.id.clone()));
        site.insert("name".into(), Value::String(entry.site.name.clone()));
        let mut object = serde_json::Map::new();
        object.insert("folder".into(), Value::String(entry.folder.clone()));
        object.insert("site".into(), Value::Object(site));
        if let Some(password) = &entry.password {
            object.insert("password".into(), Value::String(password.clone()));
        }
        entries.push(Value::Object(object));
    }
    let mut top = serde_json::Map::new();
    top.insert("version".into(), Value::from(bundle.version));
    top.insert("entries".into(), Value::Array(entries));
    serde_json::to_vec_pretty(&Value::Object(top)).unwrap()
}

fn read_back(text: &[u8]) -> Value {
    serde_json::from_slice(text).unwrap()
}

#[test]
fn an_export_without_passwords_is_plain_and_readable() {
    let (list, store) = filed();
    let bundle = gather(&list, &store, false);
    assert!(!bundle.carries_secrets());

    let bytes = to_bytes(&bundle, &json_of(&bundle), None).unwrap();
    let text = String::from_utf8(bytes.clone()).unwrap();
    assert!(text.contains("Webserver"), "the point of the plain shape");
    assert!(!text.contains("tannenbaum"));

    let back = read_back(&text_of(&bytes, None).unwrap());
    let entries = back["entries"].as_array().unwrap();
    assert_eq!(entries.len(), 1);
    assert_eq!(entries[0]["folder"], "Kunden");
}

#[test]
fn an_export_with_passwords_cannot_be_written_unsealed() {
    let (list, store) = filed();
    let bundle = gather(&list, &store, true);
    assert!(bundle.carries_secrets());
    assert!(to_bytes(&bundle, &json_of(&bundle), None).is_err());
}

#[test]
fn a_sealed_export_comes_back_whole() {
    let (list, store) = filed();
    let bundle = gather(&list, &store, true);
    let bytes = to_bytes(&bundle, &json_of(&bundle), Some("ein Kennwort")).unwrap();

    assert!(!bytes.windows(10).any(|w| w == b"tannenbaum"));
    assert!(!bytes.windows(9).any(|w| w == b"Webserver"));

    let back = read_back(&text_of(&bytes, Some("ein Kennwort")).unwrap());
    assert_eq!(back["entries"][0]["password"], "tannenbaum");
    assert_eq!(back["entries"][0]["site"]["name"], "Webserver");
}

#[test]
fn a_sealed_export_says_so_before_asking_for_a_passphrase() {
    let (list, store) = filed();
    let bundle = gather(&list, &store, true);
    let bytes = to_bytes(&bundle, &json_of(&bundle), Some("k")).unwrap();
    assert!(is_sealed(&bytes));
    assert!(text_of(&bytes, None).is_err());
    assert!(text_of(&bytes, Some("falsch")).is_err());
}

#[test]
fn importing_a_list_twice_does_not_have_two_entries_share_a_password() {
    let (list, store) = filed();
    let bundle = gather(&list, &store, true);
    let entry = &bundle.entries[0];

    let (first_folder, first) = placed(entry, "Erst", "new-1");
    let (second_folder, second) = placed(entry, "Dann", "new-2");
    assert_eq!(first_folder, "Erst/Kunden");
    assert_eq!(second_folder, "Dann/Kunden");
    assert_ne!(first.id, second.id, "two entries must not share one password in the credential store");
    assert!(first.remember_password && second.remember_password);
    assert_eq!(entry.password.as_deref(), Some("tannenbaum"));
}

#[test]
fn a_folder_to_import_into_is_put_in_front() {
    let (list, store) = filed();
    let bundle = gather(&list, &store, false);
    let (folder, placed_site) = placed(&bundle.entries[0], "Übernommen", "fresh");
    assert_eq!(folder, "Übernommen/Kunden");
    assert_eq!(placed_site.name, "Webserver");
    assert!(!placed_site.remember_password);
}

#[test]
fn a_file_from_a_newer_version_is_refused_rather_than_half_read() {
    let text = br#"{"version":99,"entries":[]}"#;
    let back = read_back(&text_of(text, None).unwrap());
    let bundle = Bundle { version: back["version"].as_u64().unwrap() as u32, entries: Vec::new() };
    assert!(accept_version(&bundle).is_err());
}

#[test]
fn this_version_and_earlier_ones_are_taken() {
    assert!(accept_version(&Bundle { version: 1, entries: Vec::new() }).is_ok());
    assert!(accept_version(&Bundle { version: 0, entries: Vec::new() }).is_ok());
}

#[test]
fn gathering_with_secrets_brings_both_kinds() {
    let (list, mut store) = filed();
    store.set("site-1", Secret::Passphrase, "eichhorn").unwrap();
    let bundle = gather(&list, &store, true);
    assert_eq!(bundle.version, 1);
    assert_eq!(bundle.entries[0].password.as_deref(), Some("tannenbaum"));
    assert_eq!(bundle.entries[0].passphrase.as_deref(), Some("eichhorn"));
    assert_eq!(bundle.entries[0].site.id, "site-1");
}

#[test]
fn an_empty_folder_to_import_into_leaves_the_entry_where_it_was() {
    let entry = Entry { folder: "Kunden".into(), site: site("old", "Web"), password: None, passphrase: None };
    assert_eq!(placed(&entry, "  ", "n").0, "Kunden");
    let top = Entry { folder: String::new(), ..entry.clone() };
    assert_eq!(placed(&top, " Neu ", "n").0, "Neu");
    assert_eq!(placed(&top, "", "n").1.id, "n");
}

#[test]
fn a_plain_file_is_its_own_text() {
    assert_eq!(text_of(b"{}", Some("ignored")).unwrap(), b"{}");
}

#[test]
fn an_entry_takes_what_the_store_answered_and_nothing_where_it_failed() {
    let f = Filed { folder: "Kunden".into(), site: site("s", "Web") };
    let e = entry_of(&f, Ok(Some("pw".into())), Err(Error::other("locked")));
    assert_eq!(e.password.as_deref(), Some("pw"));
    assert_eq!(e.passphrase, None);
    assert_eq!(e.folder, "Kunden");
}

#[test]
fn a_chosen_index_past_the_end_is_passed_over() {
    let one = Entry { folder: String::new(), site: site("a", "A"), password: None, passphrase: None };
    let two = Entry { folder: String::new(), site: site("b", "B"), password: None, passphrase: None };
    let bundle = Bundle { version: 1, entries: vec![one, two] };
    assert_eq!(taken_indices(&bundle, &[1, 7, 0, 2, 1]), vec![1, 0, 1]);
    assert!(taken_indices(&bundle, &[]).is_empty());
}
