use amberbeam_core::editing::{
    check_kind, check_size, decode, encode, how_to_open, leaf, looks_binary, may_push,
    saved_since, same_file, shape_of, EditRule, Encoding, OpenWith, BOM, SNIFFED,
};
use amberbeam_core::Error;

#[test]
fn a_file_of_bytes_is_not_offered_to_a_text_editor() {
    assert!(looks_binary(b"\x89PNG\r\n\x1a\n\0\0\0\rIHDR"));
    assert!(!looks_binary(b"<?php\necho 'hallo';\n"));
    let mut long = vec![b'a'; SNIFFED + 10];
    long[SNIFFED + 5] = 0;
    assert!(!looks_binary(&long));
}

#[test]
fn a_file_that_is_not_utf8_is_read_as_latin1_and_written_back_as_latin1() {
    let bytes = b"Gr\xfc\xdfe";
    let (encoding, bom, crlf) = shape_of(bytes);
    assert_eq!(encoding, Encoding::Latin1);
    assert!(!bom);

    let text = decode(bytes, encoding, crlf);
    assert_eq!(text, "Grüße");
    assert_eq!(
        encode(&text, encoding, bom, crlf).unwrap(),
        bytes,
        "what goes back is byte for byte what came out"
    );
}

#[test]
fn a_mark_and_crlf_endings_survive_the_round_trip() {
    let mut bytes = BOM.to_vec();
    bytes.extend_from_slice(b"eins\r\nzwei\r\n");
    let (encoding, bom, crlf) = shape_of(&bytes);
    assert_eq!(encoding, Encoding::Utf8);
    assert!(bom, "a mark that was there stays there");
    assert!(crlf);

    let text = decode(&bytes, encoding, crlf);
    assert_eq!(text, "eins\nzwei\n", "an editor sees plain newlines");
    assert_eq!(encode(&text, encoding, bom, crlf).unwrap(), bytes);
}

#[test]
fn a_unix_file_does_not_grow_carriage_returns() {
    let bytes = b"eins\nzwei\n";
    let (encoding, bom, crlf) = shape_of(bytes);
    assert!(!crlf);
    let text = decode(bytes, encoding, crlf);
    assert_eq!(encode(&text, encoding, bom, crlf).unwrap(), bytes);

    let windows = encode("eins\r\nzwei\n", encoding, bom, true).unwrap();
    assert_eq!(windows, b"eins\r\nzwei\r\n");
}

#[test]
fn a_character_that_does_not_fit_the_files_encoding_is_refused() {
    let refused = encode("Grüße 😀", Encoding::Latin1, false, false);
    assert!(matches!(refused, Err(Error::TextDoesNotFit { .. })));
    assert!(encode("Grüße 😀", Encoding::Utf8, false, false).is_ok());
    match encode("a😀b", Encoding::Latin1, false, false) {
        Err(Error::TextDoesNotFit { character }) => assert_eq!(character, "😀"),
        _ => panic!("refused"),
    }
}

#[test]
fn a_missing_time_does_not_count_as_a_change() {
    assert!(same_file((10, Some(5)), (10, Some(5))));
    assert!(!same_file((10, Some(5)), (11, Some(5))));
    assert!(!same_file((10, Some(5)), (10, Some(6))));
    assert!(same_file((10, None), (10, Some(6))));
    assert!(same_file((10, Some(5)), (10, None)));
}

#[test]
fn the_table_says_what_may_be_edited_and_with_what() {
    let shipped = EditRule::shipped();
    assert!(how_to_open(&shipped, "index.php").is_some());
    assert!(how_to_open(&shipped, "INDEX.PHP").is_some(), "case is not a kind");
    assert!(how_to_open(&shipped, ".htaccess").is_some());
    assert!(how_to_open(&shipped, "Dockerfile").is_some());
    assert!(how_to_open(&shipped, "archive.tar.gz").is_none());
    assert!(how_to_open(&shipped, "photo.jpg").is_none());
    assert!(how_to_open(&shipped, "README").is_none(), "no kind, no rule");

    let mut rules = vec![EditRule {
        extensions: vec!["php".into()],
        open_with: OpenWith::Program,
        program: Some("/Applications/Editor.app".into()),
    }];
    rules.extend(shipped);
    assert_eq!(how_to_open(&rules, "index.php").unwrap().open_with, OpenWith::Program);
    assert_eq!(how_to_open(&rules, "style.css").unwrap().open_with, OpenWith::Own);

    assert!(how_to_open(&[], "index.php").is_none());
    let dotted = vec![EditRule {
        extensions: vec![".md".into()],
        open_with: OpenWith::Own,
        program: None,
    }];
    assert!(how_to_open(&dotted, "notes.md").is_some());
}

#[test]
fn the_name_of_the_copy_is_the_name_of_the_file() {
    assert_eq!(leaf("/var/www/config.php"), "config.php");
    assert_eq!(leaf("config.php"), "config.php");
    assert_eq!(leaf("/"), "file");
}

#[test]
fn a_file_outside_the_table_or_too_large_is_refused_by_name() {
    let shipped = EditRule::shipped();
    assert_eq!(check_kind(&shipped, "/srv/www/index.php").unwrap(), "index.php");
    match check_kind(&shipped, "/srv/photo.JPG") {
        Err(Error::TypeNotEdited { path, extension }) => {
            assert_eq!(path, "/srv/photo.JPG");
            assert_eq!(extension, "jpg");
        }
        _ => panic!("refused"),
    }
    assert!(check_size("/a", 20 * 1024 * 1024).is_ok());
    assert!(matches!(
        check_size("/a", 20 * 1024 * 1024 + 1),
        Err(Error::TooBigToEdit { megabytes: 20, .. })
    ));
}

#[test]
fn a_copy_saved_elsewhere_is_told_from_our_own_write() {
    assert!(!saved_since((6, Some(1)), (6, Some(1))));
    assert!(!saved_since((6, Some(1)), (0, None)));
    assert!(saved_since((6, Some(1)), (7, Some(2))));
}

#[test]
fn a_write_back_over_a_changed_file_is_refused_unless_asked_for() {
    let taking = amberbeam_core::editing::Taking {
        id: "abc".into(),
        endpoint: "remote".into(),
        remote_path: "/var/www/config.php".into(),
        name: "config.php".into(),
        local_path: "/tmp/abc/config.php".into(),
        opened: 1,
        taken: (6, Some(1)),
        written: (6, Some(2)),
    };
    let edit = amberbeam_core::editing::copy_taken(taking, b"<?php\n").expect("text");
    assert!(may_push(&edit, Some((6, Some(1))), false).is_ok());
    assert!(may_push(&edit, None, false).is_ok());
    assert!(matches!(
        may_push(&edit, Some((7, Some(1))), false),
        Err(Error::EditChangedOnServer { .. })
    ));
    assert!(may_push(&edit, Some((7, Some(1))), true).is_ok());
}
