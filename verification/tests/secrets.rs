use amberbeam_core::error::Error;
use amberbeam_core::secrets::{account, done_answer, found_answer, FileStore, MemoryStore, Secret, SecretStore, SystemStore};

#[test]
fn the_two_secrets_of_one_entry_do_not_collide() {
    let mut store = MemoryStore::default();
    store.set("site-1", Secret::Password, "tannenbaum").unwrap();
    store.set("site-1", Secret::Passphrase, "eichhorn").unwrap();

    assert_eq!(store.get("site-1", Secret::Password).unwrap().as_deref(), Some("tannenbaum"));
    assert_eq!(store.get("site-1", Secret::Passphrase).unwrap().as_deref(), Some("eichhorn"));
}

#[test]
fn nothing_filed_is_not_a_failure() {
    let mut store = MemoryStore::default();
    assert_eq!(store.get("never-seen", Secret::Password).unwrap(), None);
    store.forget("never-seen", Secret::Password).unwrap();
}

#[test]
fn deleting_an_entry_takes_both_its_secrets() {
    let mut store = MemoryStore::default();
    store.set("site-1", Secret::Password, "tannenbaum").unwrap();
    store.set("site-1", Secret::Passphrase, "eichhorn").unwrap();
    store.set("site-2", Secret::Password, "unbeteiligt").unwrap();

    store.forget_all("site-1").unwrap();

    assert_eq!(store.get("site-1", Secret::Password).unwrap(), None);
    assert_eq!(store.get("site-1", Secret::Passphrase).unwrap(), None);
    assert_eq!(store.get("site-2", Secret::Password).unwrap().as_deref(), Some("unbeteiligt"));
}

#[test]
fn a_secret_is_filed_under_the_identifier_and_nothing_else() {
    assert_eq!(account("abc123", Secret::Password), "abc123:password");
    assert_ne!(account("abc123", Secret::Password), account("abc123", Secret::Passphrase));
}

#[test]
fn setting_again_replaces_rather_than_adds() {
    let mut store = MemoryStore::default();
    store.set("site-1", Secret::Password, "one").unwrap();
    store.set("site-1", Secret::Password, "two").unwrap();
    assert_eq!(store.held.len(), 1);
    assert_eq!(store.get("site-1", Secret::Password).unwrap().as_deref(), Some("two"));
    store.forget_both("site-1").unwrap();
    assert!(store.held.is_empty());
}

#[test]
fn forgetting_one_leaves_the_others() {
    let mut store = FileStore { path: "secrets.sealed".into(), passphrase: "tannenbaum".into(), held: Vec::new() };
    store.set("site-1", Secret::Password, "eichhorn");
    store.set("site-2", Secret::Password, "mondschein");
    assert!(store.forget("site-1", Secret::Password));
    assert!(!store.forget("site-9", Secret::Password), "nothing there, nothing to write");
    assert!(store.get("site-1", Secret::Password).is_none());
    assert_eq!(store.get("site-2", Secret::Password).as_deref(), Some("mondschein"));
    assert_eq!(store.count(), 1);
}

#[test]
fn the_system_store_is_filed_under_the_programs_name() {
    assert_eq!(SystemStore::default().service, "AmberBeam");
    assert_eq!(SystemStore::new("Other").service, "Other");
}

#[test]
fn a_password_file_needs_a_passphrase() {
    assert!(FileStore::start("/tmp/secrets.sealed", "").is_err());
    let store = FileStore::start("/tmp/secrets.sealed", "kennwort").unwrap();
    assert_eq!(store.count(), 0);
    assert_eq!(store.path, "/tmp/secrets.sealed");
}

#[test]
fn the_system_store_answers_are_passed_on_as_they_came() {
    assert_eq!(found_answer(Ok(Some("geheim".to_string()))).unwrap().as_deref(), Some("geheim"));
    assert_eq!(found_answer(Ok(None)).unwrap(), None);
    assert!(matches!(found_answer(Err("locked".to_string())), Err(Error::Other { detail }) if detail == "locked"));
    assert!(done_answer(Ok(())).is_ok());
    assert!(matches!(done_answer(Err("denied".to_string())), Err(Error::Other { detail }) if detail == "denied"));
}

#[test]
fn forgetting_all_takes_both_secrets_of_a_site() {
    let mut store = MemoryStore::default();
    store.set("a", Secret::Password, "p").unwrap();
    store.set("a", Secret::Passphrase, "q").unwrap();
    store.set("b", Secret::Password, "r").unwrap();
    store.forget_all("a").unwrap();
    assert_eq!(store.get("a", Secret::Password).unwrap(), None);
    assert_eq!(store.get("a", Secret::Passphrase).unwrap(), None);
    assert_eq!(store.get("b", Secret::Password).unwrap().as_deref(), Some("r"));
}
