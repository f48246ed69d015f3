use chunked_upload::driver::{Action, Event, Phase, UploadDriver};
use chunked_upload::error::UploadError;
use chunked_upload::plan::{plan, PartDescriptor, UploadPlan};
use chunked_upload::session::CompletedPart;

const MIB: u64 = 1024 * 1024;

/// A store that answers from a script and records what it was asked.
struct MockSink {
    fail_open: bool,
    fail_part: Option<u32>,
    fail_commit: bool,
    opened: u32,
    uploaded: Vec<PartDescriptor>,
    commits: u32,
    committed_parts: Vec<CompletedPart>,
}

impl MockSink {
    fn new() -> MockSink {
        MockSink {
            fail_open: false,
            fail_part: None,
            fail_commit: false,
            opened: 0,
            uploaded: Vec::new(),
            commits: 0,
            committed_parts: Vec::new(),
        }
    }
}

struct Outcome {
    driver: UploadDriver,
    sink: MockSink,
    progress: Vec<u64>,
    result: Result<(), UploadError>,
}

fn drive(p: UploadPlan, mut sink: MockSink) -> Outcome {
    let mut driver = UploadDriver::new(p, "bucket".to_string(), "key".to_string());
    let mut action = driver.pending();
    let mut progress = Vec::new();
    let mut steps = 0;
    loop {
        steps += 1;
        assert!(steps < 100_000, "the driver does not come to an end");
        let event = match action {
            Action::OpenSession => {
                sink.opened += 1;
                if sink.fail_open {
                    Event::SessionFailed
                } else {
                    Event::SessionOpened { session_id: "upload-42".to_string() }
                }
            }
            Action::UploadPart(part) => {
                assert_eq!(driver.session().unwrap().session_id(), "upload-42");
                assert!(driver.session().unwrap().is_open());
                sink.uploaded.push(part);
                if sink.fail_part == Some(part.part_number) {
                    Event::PartFailed { part_number: part.part_number }
                } else {
                    Event::PartUploaded {
                        part_number: part.part_number,
                        integrity_tag: format!("etag-{}", part.part_number),
                    }
                }
            }
            Action::Commit => {
                sink.commits += 1;
                let request = driver.commit_request().unwrap();
                assert_eq!(request.session_id, "upload-42");
                assert_eq!(request.container, "bucket");
                assert_eq!(request.object_key, "key");
                sink.committed_parts = request.parts.clone();
                if sink.fail_commit {
                    Event::CommitFailed
                } else {
                    Event::Committed
                }
            }
            Action::Done => return Outcome { driver, sink, progress, result: Ok(()) },
            Action::Abort(error) => return Outcome { driver, sink, progress, result: Err(error) },
        };
        let was_part = matches!(event, Event::PartUploaded { .. });
        let (next, then) = driver.step(event);
        driver = next;
        action = then;
        if was_part {
            progress.push(driver.progress().bytes_done());
        }
    }
}

#[test]
fn fresh_driver_asks_for_a_session() {
    let driver = UploadDriver::new(plan(25, 10).unwrap(), "b".to_string(), "k".to_string());
    assert_eq!(driver.phase(), Phase::Opening);
    assert_eq!(driver.pending(), Action::OpenSession);
    assert_eq!(driver.parts_done(), 0);
    assert_eq!(driver.progress().bytes_done(), 0);
    assert_eq!(driver.progress().total_size(), 25);
    assert!(driver.session().is_none());
    assert!(driver.commit_request().is_none());
    assert_eq!(driver.failure(), None);
    assert_eq!(driver.plan().part_count(), 3);
}

#[test]
fn full_run_uploads_every_part_once() {
    let p = plan(13 * MIB, 5 * MIB).unwrap();
    let outcome = drive(p, MockSink::new());
    assert_eq!(outcome.result, Ok(()));
    assert_eq!(outcome.driver.phase(), Phase::Done);
    assert_eq!(outcome.sink.opened, 1);
    assert_eq!(outcome.sink.commits, 1);
    assert_eq!(
        outcome.sink.uploaded,
        vec![
            PartDescriptor { part_number: 1, offset: 0, length: 5 * MIB },
            PartDescriptor { part_number: 2, offset: 5 * MIB, length: 5 * MIB },
            PartDescriptor { part_number: 3, offset: 10 * MIB, length: 3 * MIB },
        ]
    );
    assert_eq!(
        outcome.sink.committed_parts,
        vec![
            CompletedPart { part_number: 1, integrity_tag: "etag-1".to_string() },
            CompletedPart { part_number: 2, integrity_tag: "etag-2".to_string() },
            CompletedPart { part_number: 3, integrity_tag: "etag-3".to_string() },
        ]
    );
    assert_eq!(outcome.driver.parts_done(), 3);
    assert!(!outcome.driver.session().unwrap().is_open());
}

#[test]
fn full_run_of_many_parts_matches_the_plan() {
    for (total, chunk) in [(1u64, 1u64), (10, 3), (12, 3), (999, 10), (1000, 10), (5, 100)] {
        let p = plan(total, chunk).unwrap();
        let outcome = drive(p, MockSink::new());
        assert_eq!(outcome.result, Ok(()));
        let count = p.part_count() as usize;
        assert_eq!(outcome.sink.uploaded.len(), count);
        assert_eq!(outcome.sink.committed_parts.len(), count);
        for index in 0..count {
            assert_eq!(Some(outcome.sink.uploaded[index]), p.part(index as u32));
            assert_eq!(outcome.sink.committed_parts[index].part_number as usize, index + 1);
            assert_eq!(outcome.sink.committed_parts[index].integrity_tag, format!("etag-{}", index + 1));
        }
    }
}

#[test]
fn progress_grows_to_the_total() {
    let p = plan(13 * MIB, 5 * MIB).unwrap();
    let outcome = drive(p, MockSink::new());
    assert_eq!(outcome.progress, vec![5 * MIB, 10 * MIB, 13 * MIB]);
    assert_eq!(outcome.driver.progress().bytes_done(), 13 * MIB);
    assert!(outcome.driver.progress().is_complete());

    let p = plan(1000, 7).unwrap();
    let outcome = drive(p, MockSink::new());
    let mut last = 0;
    for seen in &outcome.progress {
        assert!(*seen >= last);
        last = *seen;
    }
    assert_eq!(outcome.progress.len(), p.part_count() as usize);
    assert_eq!(last, 1000);
}

#[test]
fn failure_on_part_two_of_five_stops_the_upload() {
    let p = plan(50, 10).unwrap();
    assert_eq!(p.part_count(), 5);
    let mut sink = MockSink::new();
    sink.fail_part = Some(2);
    let outcome = drive(p, sink);
    assert_eq!(outcome.result, Err(UploadError::PartUpload { part_number: 2 }));
    let asked: Vec<u32> = outcome.sink.uploaded.iter().map(|d| d.part_number).collect();
    assert_eq!(asked, vec![1, 2]);
    assert_eq!(outcome.sink.commits, 0);
    assert_eq!(outcome.driver.phase(), Phase::Failed);
    assert_eq!(outcome.driver.failure(), Some(UploadError::PartUpload { part_number: 2 }));
    assert_eq!(outcome.driver.parts_done(), 1);
    assert_eq!(outcome.progress, vec![10]);
    assert!(outcome.driver.commit_request().is_none());
    assert!(outcome.driver.session().unwrap().is_open());
}

#[test]
fn failure_on_the_first_and_on_the_last_part() {
    let p = plan(50, 10).unwrap();
    let mut sink = MockSink::new();
    sink.fail_part = Some(1);
    let outcome = drive(p, sink);
    assert_eq!(outcome.result, Err(UploadError::PartUpload { part_number: 1 }));
    assert_eq!(outcome.sink.uploaded.len(), 1);
    assert_eq!(outcome.driver.progress().bytes_done(), 0);

    let mut sink = MockSink::new();
    sink.fail_part = Some(5);
    let outcome = drive(p, sink);
    assert_eq!(outcome.result, Err(UploadError::PartUpload { part_number: 5 }));
    assert_eq!(outcome.sink.uploaded.len(), 5);
    assert_eq!(outcome.sink.commits, 0);
    assert_eq!(outcome.driver.progress().bytes_done(), 40);
}

#[test]
fn session_that_does_not_open_fails_the_upload() {
    let mut sink = MockSink::new();
    sink.fail_open = true;
    let outcome = drive(plan(50, 10).unwrap(), sink);
    assert_eq!(outcome.result, Err(UploadError::Session));
    assert_eq!(outcome.sink.opened, 1);
    assert!(outcome.sink.uploaded.is_empty());
    assert_eq!(outcome.sink.commits, 0);
    assert!(outcome.driver.session().is_none());
}

#[test]
fn commit_that_fails_fails_the_upload() {
    let mut sink = MockSink::new();
    sink.fail_commit = true;
    let outcome = drive(plan(25, 10).unwrap(), sink);
    assert_eq!(outcome.result, Err(UploadError::Session));
    assert_eq!(outcome.sink.uploaded.len(), 3);
    assert_eq!(outcome.sink.commits, 1);
    assert_eq!(outcome.driver.phase(), Phase::Failed);
    assert_eq!(outcome.driver.progress().bytes_done(), 25);
}

#[test]
fn event_that_answers_nothing_is_ignored() {
    let p = plan(25, 10).unwrap();
    let driver = UploadDriver::new(p, "b".to_string(), "k".to_string());
    let (driver, action) = driver.step(Event::Committed);
    assert_eq!(action, Action::OpenSession);
    let (driver, action) = driver.step(Event::PartUploaded { part_number: 1, integrity_tag: "x".to_string() });
    assert_eq!(action, Action::OpenSession);
    assert_eq!(driver.parts_done(), 0);
    let (driver, action) = driver.step(Event::SessionOpened { session_id: "s".to_string() });
    let first = PartDescriptor { part_number: 1, offset: 0, length: 10 };
    assert_eq!(action, Action::UploadPart(first));
    let (driver, action) = driver.step(Event::PartUploaded { part_number: 2, integrity_tag: "x".to_string() });
    assert_eq!(action, Action::UploadPart(first));
    let (driver, action) = driver.step(Event::PartFailed { part_number: 3 });
    assert_eq!(action, Action::UploadPart(first));
    let (driver, action) = driver.step(Event::SessionOpened { session_id: "other".to_string() });
    assert_eq!(action, Action::UploadPart(first));
    assert_eq!(driver.session().unwrap().session_id(), "s");
    let (driver, action) = driver.step(Event::SessionFailed);
    assert_eq!(action, Action::UploadPart(first));
    let (driver, action) = driver.step(Event::CommitFailed);
    assert_eq!(action, Action::UploadPart(first));
    assert_eq!(driver.phase(), Phase::Uploading);
    assert_eq!(driver.parts_done(), 0);
    assert_eq!(driver.progress().bytes_done(), 0);
}

#[test]
fn nothing_moves_an_upload_that_has_ended() {
    let outcome = drive(plan(25, 10).unwrap(), MockSink::new());
    let (driver, action) = outcome.driver.step(Event::CommitFailed);
    assert_eq!(action, Action::Done);
    let (driver, action) = driver.step(Event::PartFailed { part_number: 4 });
    assert_eq!(action, Action::Done);
    assert_eq!(driver.phase(), Phase::Done);
    assert_eq!(driver.failure(), None);

    let mut sink = MockSink::new();
    sink.fail_part = Some(2);
    let outcome = drive(plan(25, 10).unwrap(), sink);
    let failed = Action::Abort(UploadError::PartUpload { part_number: 2 });
    let (driver, action) = outcome.driver.step(Event::PartUploaded { part_number: 2, integrity_tag: "late".to_string() });
    assert_eq!(action, failed);
    let (driver, action) = driver.step(Event::Committed);
    assert_eq!(action, failed);
    assert_eq!(driver.parts_done(), 1);
    assert!(driver.commit_request().is_none());
}

#[test]
fn commit_is_pending_until_it_is_answered() {
    let p = plan(4, 10).unwrap();
    let driver = UploadDriver::new(p, "b".to_string(), "k".to_string());
    let (driver, _) = driver.step(Event::SessionOpened { session_id: "s".to_string() });
    let (driver, action) = driver.step(Event::PartUploaded { part_number: 1, integrity_tag: "t".to_string() });
    assert_eq!(action, Action::Commit);
    assert_eq!(driver.phase(), Phase::Committing);
    assert_eq!(driver.pending(), Action::Commit);
    let (driver, action) = driver.step(Event::PartUploaded { part_number: 2, integrity_tag: "u".to_string() });
    assert_eq!(action, Action::Commit);
    let request = driver.commit_request().unwrap();
    assert_eq!(request.parts, vec![CompletedPart { part_number: 1, integrity_tag: "t".to_string() }]);
    assert_eq!(request.session_id, "s");
    assert_eq!(request.container, "b");
    assert_eq!(request.object_key, "k");
    let (driver, action) = driver.step(Event::Committed);
    assert_eq!(action, Action::Done);
    assert_eq!(driver.phase(), Phase::Done);
}
