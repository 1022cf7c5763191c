use amberbeam_core::endpoint::Protocol;
use amberbeam_core::ftp::Encryption;
use amberbeam_core::import::sites_dat::{decode, parse};
use amberbeam_core::import::Source;

const SCRAMBLE: &[u8] = b"yA36zA48dEhfrvghGRg57h5UlDv3";

/// The method forwards, as the program writes a password.
fn encode(password: &str) -> String {
    let plain = password.as_bytes();
    let mut cipher = vec![0x42_u8];
    for (index, byte) in plain.iter().enumerate() {
        let key = SCRAMBLE[index];
        cipher.push((byte.wrapping_add(cipher[index])) ^ key);
    }
    cipher.iter().map(|byte| format!("{byte:02X}")).collect()
}

#[test]
fn sites_dat_a_stored_password_comes_back() {
    for password in ["tannenbaum", "x", "kurz&knapp"] {
        assert_eq!(decode(&encode(password)).as_deref(), Some(password));
    }
}

#[test]
fn a_value_that_is_not_text_is_dropped_rather_than_handed_over() {
    assert_eq!(decode("00112233445566778899"), None);
    assert_eq!(decode(""), None);
    assert_eq!(decode("AB"), None);
}

#[test]
fn a_value_longer_than_the_fixed_string_is_no_password() {
    let long = "abcdefghijklmnopqrstuvwxyzABCD";
    assert_eq!(long.len(), 30);
    let mut cipher = vec![0x42_u8];
    for (index, byte) in long.as_bytes().iter().enumerate() {
        let key = SCRAMBLE.get(index).copied().unwrap_or(0);
        cipher.push((byte.wrapping_add(cipher[index])) ^ key);
    }
    let stored: String = cipher.iter().map(|byte| format!("{byte:02X}")).collect();
    assert_eq!(decode(&stored), None);
}

#[test]
fn a_section_becomes_a_server_with_its_folder() {
    let text = format!(
        "[Kunden\\Müller]\n\
         created=40668.9448318287\n\
         IP=example.org\n\
         port=2121\n\
         user=dennis\n\
         pass={}\n\
         path=/var/www\n",
        encode("tannenbaum")
    );
    let found = parse(&text, "Sites.dat");

    assert_eq!(found.source, Source::SitesDat);
    assert_eq!(found.entries.len(), 1);
    let entry = &found.entries[0];
    assert_eq!(entry.name, "Müller");
    assert_eq!(entry.folder, "Kunden");
    assert_eq!(entry.host, "example.org");
    assert_eq!(entry.port, 2121);
    assert_eq!(entry.remote_path.as_deref(), Some("/var/www"));
    assert_eq!(entry.password.as_deref(), Some("tannenbaum"));
    assert!(found.warnings.is_empty());
}

#[test]
fn passwords_that_could_not_be_read_are_said_out_loud() {
    let text = "[Web]\nIP=example.org\nuser=dennis\npass=00112233445566778899\n";
    let found = parse(text, "Sites.dat");

    assert_eq!(found.entries.len(), 1, "the server is still worth having");
    assert!(!found.entries[0].has_password);
    assert!(found
        .warnings
        .contains(&"import.warning.some-passwords".to_string()));
}

#[test]
fn a_secured_section_is_explicit_ftps_and_slashes_at_the_ends_are_no_folder() {
    let found = parse("[\\Web\\]\nIP=w.example\nSSL=2\n[NoHost]\nuser=x\n", "Sites.dat");
    assert_eq!(found.entries.len(), 1);
    let e = &found.entries[0];
    assert_eq!(e.name, "Web");
    assert_eq!(e.folder, "");
    assert_eq!(e.protocol, Protocol::Ftps);
    assert_eq!(e.encryption, Some(Encryption::Explicit));
    assert_eq!(e.port, 21);
}
