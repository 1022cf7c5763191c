use amberbeam_core::endpoint::{Endpoint, FtpSecurity, Protocol};
use amberbeam_core::engine::{may_resume, partial_name, Progress, ResumeVerdict, PARTIAL_SUFFIX};
use amberbeam_core::error::{Error, IoKind, PathProblem};
use amberbeam_core::fs::{join_remote, parent_remote, DirEntry, EntryKind, Permissions};
use amberbeam_core::ops::{is_usable_name, Measurement, PermissionBits};
use amberbeam_core::transfer::{JobState, ResumeMarker, TransferJob, TransferSide};
use amberbeam_core::EndpointId;

#[test]
fn concurrency_defaults_follow_the_protocol() {
    assert_eq!(Protocol::Sftp.default_concurrency(), 8);
    assert_eq!(Protocol::Ftp.default_concurrency(), 4);
    assert_eq!(Protocol::Ftps.default_concurrency(), 4);
}

#[test]
fn concurrency_is_clamped_to_the_allowed_range() {
    let mut endpoint = Endpoint::remote("a", Protocol::Sftp, "example.org");
    endpoint.set_concurrency(0);
    assert_eq!(endpoint.concurrency, 1);
    endpoint.set_concurrency(255);
    assert_eq!(endpoint.concurrency, Protocol::MAX_CONCURRENCY);
}

#[test]
fn new_ftp_endpoints_start_out_encrypted() {
    let endpoint = Endpoint::remote("a", Protocol::Ftp, "example.org");
    assert_eq!(endpoint.security, Some(FtpSecurity::Explicit));
    assert_eq!(endpoint.port, Some(21));
}

#[test]
fn a_temporary_name_is_only_used_where_renaming_is_certain() {
    assert!(Protocol::Local.rename_is_dependable());
    assert!(Protocol::Sftp.rename_is_dependable());
    assert!(!Protocol::Ftp.rename_is_dependable());
    assert!(!Protocol::Ftps.rename_is_dependable());
}

#[test]
fn plain_ftp_is_the_only_protocol_that_is_not_encrypted() {
    assert!(!Protocol::Ftp.is_encrypted());
    assert!(Protocol::Ftps.is_encrypted());
    assert!(Protocol::Sftp.is_encrypted());
}

#[test]
fn a_local_endpoint_has_no_host_and_its_own_name() {
    let endpoint = Endpoint::local("local");
    assert_eq!(endpoint.id.as_str(), "local");
    assert_eq!(endpoint.host, None);
    assert_eq!(Protocol::Local.as_str(), "local");
    assert_eq!(Protocol::Ftps.as_str(), "ftps");
    assert_eq!(Protocol::Sftp.default_port(), Some(22));
    assert_eq!(Protocol::Local.default_port(), None);
}

fn marker(offset: u64, size: u64, modified: Option<i64>) -> ResumeMarker {
    ResumeMarker {
        offset,
        source_size: size,
        source_modified: modified,
    }
}

#[test]
fn nothing_written_means_nothing_to_continue() {
    assert_eq!(may_resume(None, 100, Some(5)), ResumeVerdict::Fresh);
    assert_eq!(
        may_resume(Some(&marker(0, 100, Some(5))), 100, Some(5)),
        ResumeVerdict::Fresh
    );
}

#[test]
fn an_unchanged_source_may_be_continued() {
    assert_eq!(
        may_resume(Some(&marker(50, 100, Some(5))), 100, Some(5)),
        ResumeVerdict::Safe
    );
}

#[test]
fn a_source_that_grew_is_not_continued_behind_the_users_back() {
    assert_eq!(
        may_resume(Some(&marker(50, 100, Some(5))), 140, Some(5)),
        ResumeVerdict::Changed
    );
}

#[test]
fn a_source_with_the_same_size_but_a_new_timestamp_is_not_continued() {
    assert_eq!(
        may_resume(Some(&marker(50, 100, Some(5))), 100, Some(9)),
        ResumeVerdict::Changed
    );
}

#[test]
fn a_server_without_timestamps_never_gets_the_benefit_of_the_doubt() {
    assert_eq!(
        may_resume(Some(&marker(50, 100, None)), 100, None),
        ResumeVerdict::Changed
    );
}

#[test]
fn a_partial_download_is_not_mistaken_for_a_finished_one() {
    assert_eq!(partial_name("holiday.mov"), "holiday.mov.ampart");
    assert!(partial_name("x").ends_with(PARTIAL_SUFFIX));
}

#[test]
fn progress_counts_and_can_be_stopped() {
    let mut progress = Progress::new(Some(100), 10);
    assert_eq!(progress.done(), 10);
    assert_eq!(progress.total(), 100);
    progress.add_done(5);
    assert_eq!(progress.done(), 15);
    progress.set_done(40);
    progress.set_total(200);
    assert_eq!(progress.done(), 40);
    assert_eq!(progress.total(), 200);
    assert!(!progress.is_cancelled());
    progress.cancel();
    assert!(progress.is_cancelled());
    assert_eq!(Progress::new(None, 0).total(), 0);
}

#[test]
fn every_variant_names_a_translation_key() {
    let samples = [
        Error::Unreachable {
            host: "example.org".into(),
            port: 22,
        },
        Error::AuthenticationFailed {
            user: "dennis".into(),
        },
        Error::Agent,
        Error::Disconnected,
        Error::NotConnected,
        Error::other("anything"),
    ];
    for error in samples {
        assert!(error.message_key().starts_with("error."));
    }
}

#[test]
fn a_path_problem_names_its_reason() {
    let error = Error::Path {
        path: "/x".into(),
        reason: PathProblem::NotFound,
    };
    assert_eq!(error.message_key(), "error.path");
    assert_eq!(Error::SourceChanged.message_key(), "error.source-changed");
}

fn entry(name: &str, kind: EntryKind) -> DirEntry {
    DirEntry {
        name: name.into(),
        kind,
        size: None,
        modified: None,
        permissions: None,
        owner: None,
        group: None,
        link_target: None,
        kind_of_target: None,
    }
}

#[test]
fn permissions_read_like_ls() {
    assert_eq!(Permissions(0o755).to_rwx(), "rwxr-xr-x");
    assert_eq!(Permissions(0o640).to_rwx(), "rw-r-----");
    assert_eq!(Permissions(0).to_rwx(), "---------");
}

#[test]
fn a_symlink_counts_as_a_directory_only_when_it_points_at_one() {
    let mut link = entry("current", EntryKind::Symlink);
    assert!(!link.is_directory());
    link.kind_of_target = Some(EntryKind::Directory);
    assert!(link.is_directory());
}

#[test]
fn a_dot_file_is_hidden() {
    assert!(entry(".htaccess", EntryKind::File).is_hidden());
    assert!(!entry("index.html", EntryKind::File).is_hidden());
}

#[test]
fn joining_never_doubles_the_separator() {
    assert_eq!(join_remote("/var/www", "index.html"), "/var/www/index.html");
    assert_eq!(join_remote("/", "etc"), "/etc");
}

#[test]
fn walking_up_ends_at_the_root() {
    assert_eq!(parent_remote("/var/www/html"), Some("/var/www".into()));
    assert_eq!(parent_remote("/var"), Some("/".into()));
    assert_eq!(parent_remote("/"), None);
}

#[test]
fn a_trailing_separator_does_not_confuse_the_way_up() {
    assert_eq!(parent_remote("/var/www/"), Some("/var".into()));
}

#[test]
fn nine_boxes_and_an_octal_number_say_the_same_thing() {
    assert_eq!(PermissionBits::from_mode(0o755).to_mode(), 0o755);
    assert_eq!(PermissionBits::from_mode(0o640).to_mode(), 0o640);
    assert_eq!(PermissionBits::from_mode(0).to_mode(), 0);

    let bits = PermissionBits::from_mode(0o644);
    assert!(bits.owner_read && bits.owner_write && !bits.owner_execute);
    assert!(bits.group_read && !bits.group_write);
    assert!(bits.other_read && !bits.other_write);
}

#[test]
fn bits_outside_the_nine_are_dropped() {
    assert_eq!(PermissionBits::from_mode(0o4755).to_mode(), 0o755);
}

#[test]
fn a_name_that_is_really_a_path_is_refused() {
    assert!(is_usable_name("index.html"));
    assert!(is_usable_name(".htaccess"));
    assert!(is_usable_name("Größe & Maß.txt"));

    assert!(!is_usable_name(""));
    assert!(!is_usable_name("."));
    assert!(!is_usable_name(".."));
    assert!(!is_usable_name("../etc/passwd"));
    assert!(!is_usable_name("a/b"));
    assert!(!is_usable_name("a\\b"));
    assert!(!is_usable_name(" leading"));
    assert!(!is_usable_name("trailing "));
}

#[test]
fn a_measurement_knows_when_it_gave_up_counting() {
    let mut measured = Measurement::default();
    for _ in 0..Measurement::CAP {
        measured.add_file(Some(10));
    }
    assert!(measured.reached_cap());
    assert_eq!(measured.bytes, Measurement::CAP * 10);
}

#[test]
fn links_are_counted_apart_from_files() {
    let mut measured = Measurement::default();
    measured.add_file(Some(100));
    measured.add_symlink();
    measured.add_directory();
    assert_eq!(measured.total(), 3);
    assert_eq!(measured.bytes, 100);
}

fn side(endpoint: &str, path: &str) -> TransferSide {
    TransferSide::new(EndpointId::new(endpoint), path)
}

#[test]
fn a_job_between_two_servers_needs_no_local_side() {
    let job = TransferJob::new(
        "1",
        side("server-a", "/var/www/index.html"),
        side("server-b", "/srv/html/index.html"),
    );
    assert!(!job.is_within_one_endpoint());
    assert_eq!(job.state, JobState::Queued);
}

#[test]
fn copying_inside_one_server_is_recognised() {
    let job = TransferJob::new("2", side("server-a", "/a.txt"), side("server-a", "/b.txt"));
    assert!(job.is_within_one_endpoint());
}

#[test]
fn resuming_requires_size_and_time_to_match() {
    let marker = ResumeMarker {
        offset: 1024,
        source_size: 4096,
        source_modified: Some(1_700_000_000),
    };
    assert!(marker.matches_source(4096, Some(1_700_000_000)));
    assert!(!marker.matches_source(4097, Some(1_700_000_000)));
    assert!(!marker.matches_source(4096, Some(1_700_000_001)));
}

#[test]
fn a_source_without_a_timestamp_never_counts_as_unchanged() {
    let marker = ResumeMarker {
        offset: 1024,
        source_size: 4096,
        source_modified: None,
    };
    assert!(!marker.matches_source(4096, None));
}

#[test]
fn io_errors_keep_their_reason() {
    let error: Error = Error::from_io(std::io::Error::from(std::io::ErrorKind::PermissionDenied));
    assert!(matches!(
        error,
        Error::Path {
            reason: PathProblem::PermissionDenied,
            ..
        }
    ));
}

#[test]
fn a_failed_path_keeps_its_name_and_reason() {
    let error = Error::from_io_at("/srv/a.txt", std::io::Error::from(std::io::ErrorKind::NotFound));
    assert_eq!(error, Error::Path { path: "/srv/a.txt".into(), reason: PathProblem::NotFound });
    let other = Error::from_io(std::io::Error::from(std::io::ErrorKind::TimedOut));
    assert_eq!(other, Error::Path { path: String::new(), reason: PathProblem::Unknown });
}

#[test]
fn each_kind_of_failed_io_names_its_problem() {
    assert_eq!(PathProblem::from_kind(IoKind::NotFound), PathProblem::NotFound);
    assert_eq!(PathProblem::from_kind(IoKind::PermissionDenied), PathProblem::PermissionDenied);
    assert_eq!(PathProblem::from_kind(IoKind::NotADirectory), PathProblem::NotADirectory);
    assert_eq!(PathProblem::from_kind(IoKind::AlreadyExists), PathProblem::AlreadyExists);
    assert_eq!(PathProblem::from_kind(IoKind::Unlisted), PathProblem::Unknown);
}
