use static_compress::job::{Action, Event, FileMeta, Job, Phase, Record};
use static_compress::stats::Statistics;

fn drive(events: &[Event]) -> (Job, Vec<Action>) {
    let (mut job, first) = Job::start();
    let mut actions = vec![first];
    for e in events {
        actions.push(job.advance(*e));
    }
    (job, actions)
}

#[test]
fn fresh_file_is_compressed_and_stamped() {
    let src = FileMeta { len: 100, modified_secs: 1_700_000_000 };
    let (job, actions) = drive(&[
        Event::Source(src),
        Event::Destination(None),
        Event::Compressed,
        Event::Output(40),
        Event::Stamped,
    ]);
    assert_eq!(
        actions,
        vec![
            Action::StatSource,
            Action::StatDestination,
            Action::Compress,
            Action::StatOutput,
            Action::Stamp(1_700_000_000),
            Action::Finish,
        ]
    );
    assert!(job.is_finished());
    assert_eq!(job.record, Some(Record { uncompressed: 100, compressed: 40, newly_compressed: true }));
}

#[test]
fn second_run_without_changes_compresses_nothing() {
    let src = FileMeta { len: 100, modified_secs: 1_700_000_000 };
    let mut stats = Statistics::new();
    let (first, _) = drive(&[
        Event::Source(src),
        Event::Destination(None),
        Event::Compressed,
        Event::Output(40),
        Event::Stamped,
    ]);
    assert!(first.settle(&mut stats));
    let mut rerun = Statistics::new();
    let stamped = FileMeta { len: 40, modified_secs: 1_700_000_000 };
    let (second, actions) = drive(&[Event::Source(src), Event::Destination(Some(stamped))]);
    assert_eq!(actions, vec![Action::StatSource, Action::StatDestination, Action::Finish]);
    assert!(second.settle(&mut rerun));
    assert_eq!(rerun.total_file_count_now(), 0);
    assert_eq!(rerun.total_file_count(), 1);
    assert_eq!(rerun.total_compressed(), 40);
    assert_eq!(stats.total_file_count_now(), 1);
}

#[test]
fn stale_destination_is_replaced_with_new_time() {
    let src = FileMeta { len: 100, modified_secs: 1_700_000_001 };
    let old = FileMeta { len: 40, modified_secs: 1_700_000_000 };
    let (job, actions) = drive(&[
        Event::Source(src),
        Event::Destination(Some(old)),
        Event::Removed,
        Event::Compressed,
        Event::Output(41),
        Event::Stamped,
    ]);
    assert_eq!(
        actions,
        vec![
            Action::StatSource,
            Action::StatDestination,
            Action::RemoveStale,
            Action::Compress,
            Action::StatOutput,
            Action::Stamp(1_700_000_001),
            Action::Finish,
        ]
    );
    assert_eq!(job.record, Some(Record { uncompressed: 100, compressed: 41, newly_compressed: true }));
}

#[test]
fn failed_compression_discards_partial_output() {
    let src = FileMeta { len: 100, modified_secs: 5 };
    let (job, actions) =
        drive(&[Event::Source(src), Event::Destination(None), Event::Failed, Event::Stamped]);
    assert_eq!(
        actions,
        vec![
            Action::StatSource,
            Action::StatDestination,
            Action::Compress,
            Action::DiscardPartial,
            Action::Finish,
        ]
    );
    assert_eq!(job.phase, Phase::Failed);
    let mut stats = Statistics::new();
    assert!(!job.settle(&mut stats));
    assert_eq!(stats.total_file_count(), 0);
}

#[test]
fn other_files_complete_after_a_failure() {
    let mut stats = Statistics::new();
    let (bad, _) = drive(&[Event::Failed]);
    assert!(!bad.settle(&mut stats));
    let (good, _) = drive(&[
        Event::Source(FileMeta { len: 10, modified_secs: 1 }),
        Event::Destination(None),
        Event::Compressed,
        Event::Output(4),
        Event::Stamped,
    ]);
    assert!(good.settle(&mut stats));
    assert_eq!(stats.total_file_count_now(), 1);
}

#[test]
fn failed_stamp_is_ignored() {
    let (job, actions) = drive(&[
        Event::Source(FileMeta { len: 10, modified_secs: 1 }),
        Event::Destination(None),
        Event::Compressed,
        Event::Output(4),
        Event::Failed,
    ]);
    assert_eq!(actions.last(), Some(&Action::Finish));
    assert_eq!(job.phase, Phase::Done);
}

#[test]
fn failed_removal_of_stale_output_is_fatal() {
    let (job, actions) = drive(&[
        Event::Source(FileMeta { len: 10, modified_secs: 2 }),
        Event::Destination(Some(FileMeta { len: 3, modified_secs: 1 })),
        Event::Failed,
    ]);
    assert_eq!(actions.last(), Some(&Action::DiscardPartial));
    assert_eq!(job.phase, Phase::Failed);
}
