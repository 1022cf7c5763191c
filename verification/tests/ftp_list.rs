use amberbeam_core::fs::EntryKind;
use amberbeam_core::ftp::list::{epoch_seconds, parse_list_line, parse_mlsd_line};

/// 11 September 2026, 17:02:00 UTC.
const NOW: i64 = 1_789_146_120;

#[test]
fn the_epoch_is_where_it_should_be() {
    assert_eq!(epoch_seconds(1970, 1, 1, 0, 0, 0), 0);
    assert_eq!(epoch_seconds(2000, 1, 1, 0, 0, 0), 946_684_800);
    assert_eq!(epoch_seconds(2024, 2, 29, 12, 0, 0), 1_709_208_000);
}

#[test]
fn an_mlsd_line_carries_everything() {
    let entry = parse_mlsd_line(
        "type=file;size=4096;modify=20260911170200;UNIX.mode=0644;\
         UNIX.ownername=dennis;UNIX.groupname=staff; index.html",
    )
    .expect("a row");
    assert_eq!(entry.name, "index.html");
    assert_eq!(entry.kind, EntryKind::File);
    assert_eq!(entry.size, Some(4096));
    assert_eq!(entry.modified, Some(1_789_146_120));
    assert_eq!(
        entry.permissions.map(|p| p.to_rwx()),
        Some("rw-r--r--".into())
    );
    assert_eq!(entry.owner.as_deref(), Some("dennis"));
}

#[test]
fn mlsd_names_may_contain_spaces_and_semicolons() {
    let entry = parse_mlsd_line("type=file;size=1; my file; odd.txt").expect("a row");
    assert_eq!(entry.name, "my file; odd.txt");
}

#[test]
fn the_current_and_parent_directory_are_not_rows() {
    assert!(parse_mlsd_line("type=cdir;modify=20260911170200; .").is_none());
    assert!(parse_mlsd_line("type=pdir;modify=20260911170200; ..").is_none());
}

#[test]
fn an_mlsd_link_carries_its_target_and_a_directory_no_size() {
    let link = parse_mlsd_line("type=OS.unix=slink:/srv/data;size=9; data").expect("a row");
    assert_eq!(link.kind, EntryKind::Symlink);
    assert_eq!(link.link_target.as_deref(), Some("/srv/data"));
    assert_eq!(link.size, None);
    let dir = parse_mlsd_line("Type=DIR;Size=4096;unix.owner=1000;unix.ownername=dennis; www")
        .expect("a row");
    assert_eq!(dir.kind, EntryKind::Directory);
    assert_eq!(dir.size, None);
    assert_eq!(dir.owner.as_deref(), Some("dennis"));
}

#[test]
fn a_unix_line_is_taken_apart_field_by_field() {
    let entry = parse_list_line(
        "-rw-r--r--   1 dennis   staff        4096 Sep 11 17:02 index.html",
        NOW,
    )
    .expect("a row");
    assert_eq!(entry.name, "index.html");
    assert_eq!(entry.kind, EntryKind::File);
    assert_eq!(entry.size, Some(4096));
    assert_eq!(
        entry.permissions.map(|p| p.to_rwx()),
        Some("rw-r--r--".into())
    );
    assert_eq!(entry.owner.as_deref(), Some("dennis"));
    assert_eq!(entry.group.as_deref(), Some("staff"));
    assert_eq!(entry.modified, Some(1_789_146_120));
}

#[test]
fn a_name_with_spaces_survives() {
    let entry = parse_list_line(
        "-rw-r--r--   1 dennis   staff          12 Sep 11 17:02 Größe & Maß.txt",
        NOW,
    )
    .expect("a row");
    assert_eq!(entry.name, "Größe & Maß.txt");
}

#[test]
fn a_directory_is_recognised_and_has_no_size() {
    let entry = parse_list_line(
        "drwxr-xr-x   2 dennis   staff        4096 Sep 11 17:02 images",
        NOW,
    )
    .expect("a row");
    assert_eq!(entry.kind, EntryKind::Directory);
    assert!(entry.is_directory());
    assert_eq!(entry.size, None);
}

#[test]
fn a_link_is_split_from_what_it_points_at() {
    let entry = parse_list_line(
        "lrwxrwxrwx   1 dennis   staff           7 Sep 11 17:02 current -> releases/7",
        NOW,
    )
    .expect("a row");
    assert_eq!(entry.name, "current");
    assert_eq!(entry.kind, EntryKind::Symlink);
    assert_eq!(entry.link_target.as_deref(), Some("releases/7"));
}

#[test]
fn a_date_with_a_year_instead_of_a_time_is_read() {
    let entry = parse_list_line(
        "-rw-r--r--   1 dennis   staff         512 Jul 14 2019 old.txt",
        NOW,
    )
    .expect("a row");
    assert_eq!(entry.modified, Some(epoch_seconds(2019, 7, 14, 0, 0, 0)));
}

#[test]
fn a_december_date_seen_in_january_belongs_to_the_year_before() {
    let january = epoch_seconds(2027, 1, 5, 12, 0, 0);
    let entry = parse_list_line(
        "-rw-r--r--   1 dennis   staff         512 Dec 20 09:30 late.txt",
        january,
    )
    .expect("a row");
    assert_eq!(entry.modified, Some(epoch_seconds(2026, 12, 20, 9, 30, 0)));
}

#[test]
fn a_file_written_a_moment_ago_stays_in_this_year() {
    let entry = parse_list_line(
        "-rw-r--r--   1 dennis   staff         512 Sep 11 17:02 fresh.txt",
        NOW,
    )
    .expect("a row");
    assert_eq!(entry.modified, Some(epoch_seconds(2026, 9, 11, 17, 2, 0)));
}

#[test]
fn a_size_beyond_four_gigabytes_is_not_truncated() {
    let entry = parse_list_line(
        "-rw-r--r--   1 dennis   staff  8589934592 Sep 11 17:02 big.iso",
        NOW,
    )
    .expect("a row");
    assert_eq!(entry.size, Some(8_589_934_592));
}

#[test]
fn a_windows_listing_is_read_too() {
    let entry =
        parse_list_line("09-11-26  05:02PM             4096 index.html", NOW).expect("a row");
    assert_eq!(entry.name, "index.html");
    assert_eq!(entry.size, Some(4096));
    assert_eq!(entry.modified, Some(epoch_seconds(2026, 9, 11, 17, 2, 0)));
    assert_eq!(entry.permissions, None, "Windows says nothing about modes");
}

#[test]
fn a_windows_directory_says_dir_instead_of_a_size() {
    let entry =
        parse_list_line("09-11-26  05:02PM       <DIR>          images", NOW).expect("a row");
    assert_eq!(entry.kind, EntryKind::Directory);
    assert_eq!(entry.name, "images");
    assert_eq!(entry.size, None);
}

#[test]
fn midnight_and_noon_are_the_two_that_go_wrong() {
    let midnight = parse_list_line("09-11-26  12:30AM             10 a.txt", NOW).expect("a row");
    assert_eq!(midnight.modified, Some(epoch_seconds(2026, 9, 11, 0, 30, 0)));
    let noon = parse_list_line("09-11-26  12:30PM             10 b.txt", NOW).expect("a row");
    assert_eq!(noon.modified, Some(epoch_seconds(2026, 9, 11, 12, 30, 0)));
}

#[test]
fn nonsense_is_skipped_rather_than_guessed_at() {
    assert!(parse_list_line("", NOW).is_none());
    assert!(parse_list_line("total 48", NOW).is_none());
    assert!(parse_mlsd_line("no facts here").is_none());
}

#[test]
fn a_clock_far_from_the_epoch_still_reads_a_line() {
    let line = "-rw-r--r--   1 web  web   15 Sep 11 17:02 index.html";
    let _ = parse_list_line(line, i64::MAX);
    let _ = parse_list_line(line, i64::MIN);
    assert!(parse_list_line(line, 4_000_000_000_000_000).is_some());
    let year_line = "-rw-r--r--   1 web  web   15 Sep 11 2025 index.html";
    assert_eq!(parse_list_line(year_line, i64::MAX).unwrap().modified, parse_list_line(year_line, 0).unwrap().modified);
}
