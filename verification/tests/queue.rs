use amberbeam_core::queue::{Queue, QueuedJob};
use amberbeam_core::runner::{
    after_failure, after_transfer, backoff, decide, free_name_candidate, hold, job_retries,
    relative_parts_of, resolve_conflict, resume, ConflictOutcome,
};
use amberbeam_core::transfer::{ConflictPolicy, JobState, ResumeMarker};
use amberbeam_core::{EndpointId, Error, Transferred};

fn job(id: &str, source: &str, target: &str) -> QueuedJob {
    QueuedJob {
        id: id.into(),
        source_endpoint: EndpointId::new(source),
        source_path: format!("/from/{id}"),
        target_endpoint: EndpointId::new(target),
        target_path: format!("/to/{id}"),
        name: id.into(),
        state: JobState::Queued,
        conflict_policy: ConflictPolicy::Ask,
        total_bytes: Some(1000),
        done_bytes: 0,
        resume: None,
        keep_modified: true,
        keep_permissions: false,
        use_temporary_name: true,
        attempts: 0,
        retries: Some(5),
        failure: None,
        added: 0,
    }
}

fn limits(pairs: &[(&str, u32)]) -> Vec<(EndpointId, u32)> {
    pairs
        .iter()
        .map(|(id, limit)| (EndpointId::new(id), *limit))
        .collect()
}

fn running(pairs: &[(&str, u32)]) -> Vec<(EndpointId, u32)> {
    limits(pairs)
}

fn ids(queue: &Queue) -> Vec<&str> {
    queue.jobs.iter().map(|job| job.id.as_str()).collect()
}

#[test]
fn jobs_start_in_the_order_they_were_put_in() {
    let mut queue = Queue::default();
    queue.add(job("one", "local", "server"));
    queue.add(job("two", "local", "server"));

    let next = queue
        .next_startable(&limits(&[("local", 8), ("server", 8)]), &running(&[]))
        .expect("something to start");
    assert_eq!(next.id, "one");
}

#[test]
fn a_busy_server_is_skipped_rather_than_blocking_the_rest() {
    let mut queue = Queue::default();
    queue.add(job("slow", "local", "slow-server"));
    queue.add(job("fast", "local", "fast-server"));

    let next = queue
        .next_startable(
            &limits(&[("local", 8), ("slow-server", 1), ("fast-server", 4)]),
            &running(&[("slow-server", 1), ("local", 1)]),
        )
        .expect("something to start");
    assert_eq!(next.id, "fast");
}

#[test]
fn a_copy_within_one_connection_counts_against_it_twice() {
    let mut queue = Queue::default();
    queue.add(job("inside", "server", "server"));
    assert!(queue
        .next_startable(&limits(&[("server", 2)]), &running(&[("server", 1)]))
        .is_none());
    assert!(queue
        .next_startable(&limits(&[("server", 2)]), &running(&[]))
        .is_some());
}

#[test]
fn a_paused_queue_starts_nothing() {
    let mut queue = Queue::default();
    queue.add(job("one", "local", "server"));
    queue.paused = true;
    assert!(queue
        .next_startable(&limits(&[("local", 8), ("server", 8)]), &running(&[]))
        .is_none());
}

#[test]
fn only_waiting_jobs_are_started() {
    let mut queue = Queue::default();
    let mut done = job("done", "local", "server");
    done.state = JobState::Done;
    let mut held = job("held", "local", "server");
    held.state = JobState::Paused;
    queue.add(done);
    queue.add(held);
    assert!(queue
        .next_startable(&limits(&[("local", 8), ("server", 8)]), &running(&[]))
        .is_none());
}

#[test]
fn an_endpoint_without_a_limit_takes_one_at_a_time() {
    let mut queue = Queue::default();
    queue.add(job("one", "local", "server"));
    assert!(queue.next_startable(&limits(&[]), &running(&[])).is_some());
    assert!(queue
        .next_startable(&limits(&[]), &running(&[("server", 1)]))
        .is_none());
}

#[test]
fn the_order_can_be_changed_by_one_place_or_to_a_place() {
    let mut queue = Queue::default();
    for id in ["a", "b", "c"] {
        queue.add(job(id, "local", "server"));
    }
    queue.move_by("c", -1);
    assert_eq!(ids(&queue), ["a", "c", "b"]);

    queue.move_to("b", 0);
    assert_eq!(ids(&queue), ["b", "a", "c"]);

    queue.move_by("b", -5);
    assert_eq!(ids(&queue), ["b", "a", "c"]);
    queue.move_by("b", 99);
    assert_eq!(ids(&queue), ["a", "c", "b"]);
}

#[test]
fn moving_to_a_place_past_the_end_means_the_last_and_an_unknown_job_moves_nothing() {
    let mut queue = Queue::default();
    for id in ["a", "b", "c"] {
        queue.add(job(id, "local", "server"));
    }
    queue.move_to("a", 50);
    assert_eq!(ids(&queue), ["b", "c", "a"]);
    queue.move_to("nobody", 0);
    queue.move_by("nobody", 1);
    assert_eq!(ids(&queue), ["b", "c", "a"]);
}

#[test]
fn removing_and_clearing_keep_the_rest_in_order() {
    let mut queue = Queue::default();
    for id in ["a", "b", "c", "d"] {
        queue.add(job(id, "local", "server"));
    }
    queue.get_mut("b").expect("b").state = JobState::Done;
    queue.get_mut("d").expect("d").state = JobState::Done;
    queue.remove("a");
    assert_eq!(ids(&queue), ["b", "c", "d"]);
    queue.clear_finished();
    assert_eq!(ids(&queue), ["c"]);
    assert!(queue.get("a").is_none());
    assert_eq!(queue.get("c").map(|j| j.state), Some(JobState::Queued));
}

#[test]
fn a_queue_survives_a_restart_with_its_offsets() {
    let mut queue = Queue::default();
    let mut moving = job("half", "server", "local");
    moving.state = JobState::Running;
    moving.done_bytes = 400;
    moving.resume = Some(ResumeMarker {
        offset: 400,
        source_size: 1000,
        source_modified: Some(17),
    });
    queue.add(moving);
    queue.settle_after_restart();
    let job = queue.get("half").expect("the job");
    assert_eq!(job.state, JobState::Queued);
    assert_eq!(job.done_bytes, 400);
    assert_eq!(job.resume.as_ref().map(|marker| marker.offset), Some(400));
}

#[test]
fn the_totals_count_what_the_window_shows() {
    let mut queue = Queue::default();
    let mut done = job("done", "local", "server");
    done.state = JobState::Done;
    done.done_bytes = 1000;
    let mut moving = job("moving", "local", "server");
    moving.state = JobState::Running;
    moving.done_bytes = 250;
    queue.add(done);
    queue.add(moving);
    queue.add(job("waiting", "local", "server"));

    let totals = queue.totals();
    assert_eq!(totals.done_jobs, 1);
    assert_eq!(totals.running_jobs, 1);
    assert_eq!(totals.waiting_jobs, 1);
    assert_eq!(totals.done_bytes, 1250);
    assert_eq!(totals.total_bytes, 3000);
}

#[test]
fn a_copy_between_two_servers_is_recognised_as_such() {
    let local = EndpointId::new("local");
    let between = job("x", "server-a", "server-b");
    assert!(between.is_between_two_endpoints(&local));
    assert!(!between.is_within_one_endpoint());

    let upload = job("y", "local", "server-a");
    assert!(!upload.is_between_two_endpoints(&local));
}

#[test]
fn the_pauses_between_attempts_grow_and_then_stop_growing() {
    assert_eq!(backoff(0), 1);
    assert_eq!(backoff(1), 2);
    assert_eq!(backoff(2), 4);
    assert_eq!(backoff(3), 8);
    assert_eq!(backoff(4), 16);
    assert_eq!(backoff(9), 16);
}

#[test]
fn a_job_gets_five_attempts_unless_it_says_otherwise_and_never_none() {
    let mut j = job("x", "local", "server");
    j.retries = None;
    assert_eq!(job_retries(&j), 5);
    j.retries = Some(0);
    assert_eq!(job_retries(&j), 1);
    j.retries = Some(3);
    assert_eq!(job_retries(&j), 3);
}

#[test]
fn a_failure_is_retried_and_then_the_job_is_paused_not_dropped() {
    let mut j = job("x", "local", "server");
    j.resume = Some(ResumeMarker {
        offset: 1,
        source_size: 1000,
        source_modified: Some(7),
    });
    let wait = after_failure(&mut j, 300, Error::Disconnected, 2);
    assert_eq!(wait, Some(2));
    assert_eq!(j.state, JobState::Queued);
    assert_eq!(j.attempts, 1);
    assert_eq!(j.done_bytes, 300);
    assert_eq!(
        j.resume,
        Some(ResumeMarker {
            offset: 300,
            source_size: 1000,
            source_modified: Some(7)
        })
    );
    let wait = after_failure(&mut j, 350, Error::Disconnected, 2);
    assert_eq!(wait, None);
    assert_eq!(j.state, JobState::Paused);
    assert_eq!(j.attempts, 2);
    assert_eq!(j.failure, Some(Error::Disconnected));
}

#[test]
fn a_changed_source_is_not_retried() {
    let mut j = job("x", "local", "server");
    let wait = after_failure(&mut j, 10, Error::SourceChanged, 5);
    assert_eq!(wait, None);
    assert_eq!(j.state, JobState::Paused);
}

#[test]
fn a_finished_transfer_is_done_and_a_stopped_one_keeps_its_offset() {
    let mut j = job("x", "local", "server");
    j.state = JobState::Running;
    let marker = ResumeMarker {
        offset: 40,
        source_size: 1000,
        source_modified: Some(3),
    };
    after_transfer(
        &mut j,
        40,
        Transferred {
            complete: false,
            moved: 40,
            resume: Some(marker.clone()),
        },
    );
    assert_eq!(j.state, JobState::Paused);
    assert_eq!(j.resume, Some(marker));
    after_transfer(
        &mut j,
        1000,
        Transferred {
            complete: true,
            moved: 960,
            resume: None,
        },
    );
    assert_eq!(j.state, JobState::Done);
    assert_eq!(j.total_bytes, Some(1000));
    assert_eq!(j.resume, None);
}

#[test]
fn a_file_already_there_is_handled_as_the_policy_says() {
    let mut j = job("x", "local", "server");
    j.target_path = "/to/report.txt".into();
    assert!(matches!(
        resolve_conflict(j.clone(), None, None, String::new()),
        ConflictOutcome::Run(_)
    ));
    assert!(matches!(
        resolve_conflict(j.clone(), Some((10, Some(5))), None, String::new()),
        ConflictOutcome::Ask
    ));
    j.conflict_policy = ConflictPolicy::OverwriteIfNewer;
    assert!(matches!(
        resolve_conflict(j.clone(), Some((10, Some(5))), Some((20, Some(6))), String::new()),
        ConflictOutcome::Run(_)
    ));
    assert!(matches!(
        resolve_conflict(j.clone(), Some((10, Some(5))), Some((20, None)), String::new()),
        ConflictOutcome::Skip
    ));
    j.conflict_policy = ConflictPolicy::Rename;
    match resolve_conflict(j.clone(), Some((10, None)), None, "/to/report-1.txt".into()) {
        ConflictOutcome::Run(renamed) => assert_eq!(renamed.target_path, "/to/report-1.txt"),
        _ => panic!("a rename runs"),
    }
    j.conflict_policy = ConflictPolicy::Resume;
    match resolve_conflict(j.clone(), Some((400, None)), Some((1000, Some(9))), String::new()) {
        ConflictOutcome::Run(resumed) => {
            assert_eq!(resumed.done_bytes, 400);
            assert_eq!(
                resumed.resume,
                Some(ResumeMarker {
                    offset: 400,
                    source_size: 1000,
                    source_modified: Some(9)
                })
            );
        }
        _ => panic!("a resume runs"),
    }
}

#[test]
fn a_free_name_keeps_the_extension_and_ignores_dots_in_directories() {
    assert_eq!(free_name_candidate("/srv/report.txt", 1), "/srv/report-1.txt");
    assert_eq!(free_name_candidate("/srv.d/report", 2), "/srv.d/report-2");
    assert_eq!(free_name_candidate("/srv/.hidden", 3), "/srv/.hidden-3");
    assert_eq!(free_name_candidate("archive.tar.gz", 12), "archive.tar-12.gz");
}

#[test]
fn holding_resuming_and_deciding_change_only_the_job_asked_about() {
    let mut queue = Queue::default();
    queue.add(job("a", "local", "server"));
    let mut asking = job("b", "local", "server");
    asking.state = JobState::Asking;
    queue.add(asking);
    let mut finished = job("c", "local", "server");
    finished.state = JobState::Done;
    queue.add(finished);

    hold(&mut queue, "a");
    assert_eq!(queue.get("a").unwrap().state, JobState::Paused);
    resume(&mut queue, "a");
    assert_eq!(queue.get("a").unwrap().state, JobState::Queued);

    decide(&mut queue, "b", ConflictPolicy::Overwrite, true);
    assert_eq!(queue.get("b").unwrap().state, JobState::Queued);
    assert_eq!(queue.get("a").unwrap().conflict_policy, ConflictPolicy::Overwrite);
    assert_eq!(queue.get("c").unwrap().conflict_policy, ConflictPolicy::Ask);
}

#[test]
fn a_relative_path_falls_into_its_parts() {
    assert_eq!(relative_parts_of("a//b/c/"), vec!["a", "b", "c"]);
    assert!(relative_parts_of("").is_empty());
}

#[test]
fn a_running_job_uses_a_channel_at_each_end() {
    let mut queue = Queue::default();
    queue.add(job("one", "local", "server"));
    queue.add(job("two", "server", "server"));
    queue.add(job("three", "local", "other"));
    let busy = queue.busy(&["one".to_string(), "two".to_string(), "gone".to_string()]);
    let count = |id: &str| busy.iter().find(|(e, _)| e.as_str() == id).map(|(_, n)| *n).unwrap_or(0);
    assert_eq!(count("local"), 1);
    assert_eq!(count("server"), 3);
    assert_eq!(count("other"), 0);
    assert_eq!(busy.len(), 2);
    let next = queue.next_startable(&limits(&[("local", 4), ("server", 4), ("other", 4)]), &busy);
    assert_eq!(next.map(|j| j.id.as_str()), Some("one"));
    assert!(queue.busy(&[]).is_empty());
}

#[test]
fn every_job_but_a_skipped_one_is_counted_once() {
    let mut queue = Queue::default();
    let mut skipped = job("skipped", "local", "server");
    skipped.state = JobState::Skipped;
    let mut asking = job("asking", "local", "server");
    asking.state = JobState::Asking;
    let mut failed = job("failed", "local", "server");
    failed.state = JobState::Failed;
    queue.add(skipped);
    queue.add(asking);
    queue.add(failed);
    queue.add(job("waiting", "local", "server"));

    let t = queue.totals();
    let counted = t.waiting_jobs + t.asking_jobs + t.running_jobs + t.paused_jobs + t.done_jobs + t.failed_jobs;
    assert_eq!(counted, 3);
    assert_eq!(t.asking_jobs, 1);
    assert_eq!(t.failed_jobs, 1);
    assert_eq!(t.waiting_jobs, 1);
}
