use amberbeam_core::endpoint::Protocol;
use amberbeam_core::ftp::Encryption;
use amberbeam_core::import::commander::{decode, parse, Generator};
use amberbeam_core::import::Source;

/// The same four passes forwards, as the plug-in writes them.
fn encode(password: &str) -> String {
    let mut bytes = password.as_bytes().to_vec();
    let length = bytes.len();

    let mut shift = Generator(54_321);
    let shifts: Vec<u8> = (0..length).map(|_| shift.below(256) as u8).collect();
    for (byte, add) in bytes.iter_mut().zip(&shifts) {
        *byte = byte.wrapping_add(*add);
    }

    let mut mask = Generator(42_340);
    let masks: Vec<u8> = (0..length).map(|_| mask.below(256) as u8).collect();
    for (byte, m) in bytes.iter_mut().zip(&masks) {
        *byte ^= m;
    }

    let mut shuffle = Generator(12_345);
    let swaps: Vec<(usize, usize)> = (0..256)
        .map(|_| {
            (
                shuffle.below(length as u32) as usize,
                shuffle.below(length as u32) as usize,
            )
        })
        .collect();
    for &(a, b) in swaps.iter().rev() {
        bytes.swap(a, b);
    }

    let mut rotate = Generator(849_521);
    let turns: Vec<u32> = (0..length).map(|_| rotate.below(8)).collect();
    for (byte, turn) in bytes.iter_mut().zip(&turns) {
        *byte = byte.rotate_right(*turn);
    }

    bytes.extend_from_slice(&[0, 0, 0, 0]);
    bytes.iter().map(|byte| format!("{byte:02X}")).collect()
}

#[test]
fn commander_a_stored_password_comes_back() {
    for password in ["tannenbaum", "x", "Größe&Maß", "a rather longer one, 30+"] {
        assert_eq!(decode(&encode(password)).as_deref(), Some(password));
    }
}

#[test]
fn commander_nonsense_decodes_to_nothing_rather_than_to_rubbish() {
    assert_eq!(decode(""), None);
    assert_eq!(decode("ABC"), None, "an odd number of characters");
    assert_eq!(decode("zzzz"), None, "not hex");
    assert_eq!(decode("00000000"), None, "nothing but the check");
}

#[test]
fn white_space_inside_a_stored_password_is_ignored() {
    let stored = encode("tannenbaum");
    let (front, back) = stored.split_at(6);
    let spaced = format!(" {front}\t{back} ");
    assert_eq!(decode(&spaced).as_deref(), Some("tannenbaum"));
}

#[test]
fn the_generator_steps_as_a_linear_congruence() {
    let mut g = Generator(0);
    assert_eq!(g.below(0), 0);
    assert_eq!(g.0, 1);
    let mut h = Generator(1);
    h.below(256);
    assert_eq!(h.0, 0x0808_8406);
    let mut big = Generator(0xFFFF_FFFF);
    let r = big.below(10);
    assert!(r < 10);
    assert_eq!(big.0, ((0xFFFF_FFFFu64 * 0x0808_8405 + 1) % 0x1_0000_0000) as u32);
}

#[test]
fn one_section_becomes_one_connection() {
    let text = format!(
        "[Kunde Müller]\n\
         host=example.org:2121/var/www\n\
         username=dennis\n\
         password={}\n\
         [default]\n\
         host=ignoriert\n",
        encode("tannenbaum")
    );
    let found = parse(&text, "wcx_ftp.ini");

    assert_eq!(found.source, Source::WcxFtp);
    assert_eq!(found.entries.len(), 1, "the defaults are not a connection");
    let entry = &found.entries[0];
    assert_eq!(entry.name, "Kunde Müller");
    assert_eq!(entry.host, "example.org");
    assert_eq!(entry.port, 2121);
    assert_eq!(entry.remote_path.as_deref(), Some("/var/www"));
    assert_eq!(entry.protocol, Protocol::Ftp);
    assert_eq!(entry.password.as_deref(), Some("tannenbaum"));
}

#[test]
fn a_secured_connection_is_read_as_explicit() {
    let found = parse("[Web]\nhost=example.org\nusername=dennis\nssl=1\n", "wcx_ftp.ini");
    assert_eq!(found.entries[0].protocol, Protocol::Ftps);
    assert_eq!(found.entries[0].encryption, Some(Encryption::Explicit));
}

#[test]
fn a_section_without_a_host_or_with_an_empty_one_is_no_connection() {
    let found = parse("[A]\nusername=x\n[B]\nhost=:21\n[C]\nhost=c.example\nremotedir=/srv\n", "x");
    assert_eq!(found.entries.len(), 1);
    assert_eq!(found.entries[0].name, "C");
    assert_eq!(found.entries[0].port, 21);
    assert_eq!(found.entries[0].remote_path.as_deref(), Some("/srv"));
    assert!(!found.entries[0].has_password);
}
