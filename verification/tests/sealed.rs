use amberbeam_core::sealed::{header, is_sealed, open, seal, seal_with};

const PLAIN: &[u8] = b"{\"sites\":[{\"name\":\"Webserver\",\"password\":\"tannenbaum\"}]}";
const MAGIC_LEN: usize = 16;

#[test]
fn what_goes_in_comes_out() {
    let sealed = seal(PLAIN, "ein langes Kennwort").unwrap();
    assert_eq!(open(&sealed, "ein langes Kennwort").unwrap(), PLAIN);
}

#[test]
fn the_passwords_are_not_in_the_file() {
    let sealed = seal(PLAIN, "kennwort").unwrap();
    assert!(!sealed.windows(10).any(|window| window == b"tannenbaum"));
    assert!(!sealed.windows(9).any(|window| window == b"Webserver"));
    assert!(is_sealed(&sealed));
}

#[test]
fn the_wrong_passphrase_says_so_and_gives_nothing() {
    let sealed = seal(PLAIN, "richtig").unwrap();
    assert!(open(&sealed, "falsch").is_err());
    assert!(open(&sealed, "").is_err());
}

#[test]
fn a_changed_file_will_not_open() {
    let mut sealed = seal(PLAIN, "kennwort").unwrap();
    let last = sealed.len() - 1;
    sealed[last] ^= 0x01;
    assert!(open(&sealed, "kennwort").is_err());
}

#[test]
fn the_header_is_protected_too() {
    let mut sealed = seal(PLAIN, "kennwort").unwrap();
    sealed[MAGIC_LEN..MAGIC_LEN + 4].copy_from_slice(&1_u32.to_be_bytes());
    assert!(open(&sealed, "kennwort").is_err());
}

#[test]
fn something_that_is_not_an_export_is_refused_by_name() {
    assert!(open(b"", "kennwort").is_err());
    assert!(open(b"just some text that is long enough to get past the length check", "k").is_err());
}

#[test]
fn two_files_of_the_same_thing_look_nothing_alike() {
    let one = seal(PLAIN, "kennwort").unwrap();
    let two = seal(PLAIN, "kennwort").unwrap();
    assert_ne!(one, two);
    assert_eq!(open(&one, "kennwort").unwrap(), open(&two, "kennwort").unwrap());
}

#[test]
fn a_file_without_a_passphrase_is_not_offered() {
    assert!(seal(PLAIN, "").is_err());
}

#[test]
fn an_absurd_round_count_is_refused_before_any_work() {
    let mut forged = header(&[7u8; 16], &[9u8; 12], 20_000_000);
    forged.extend_from_slice(&[0u8; 32]);
    assert!(is_sealed(&forged));
    assert!(open(&forged, "k").is_err());
    assert!(!is_sealed(b"AMBERBEAM-SEAL"));
}

#[test]
fn a_header_says_what_the_file_is_and_how_it_was_made() {
    let h = header(&[1u8; 16], &[2u8; 12], 600_000);
    assert_eq!(h.len(), 48);
    assert_eq!(&h[..14], b"AMBERBEAM-SEAL");
    assert_eq!(&h[16..20], &600_000u32.to_be_bytes());
}

#[test]
fn a_given_salt_and_nonce_seal_the_same_way_twice_and_open() {
    let salt = [7u8; 16];
    let nonce = [9u8; 12];
    let one = seal_with(PLAIN, "kennwort", &salt, &nonce).unwrap();
    let two = seal_with(PLAIN, "kennwort", &salt, &nonce).unwrap();
    assert_eq!(one, two);
    assert_eq!(open(&one, "kennwort").unwrap(), PLAIN);
    assert!(open(&one, "anders").is_err());
}
