use vstd::prelude::*;
use crate::stats::{Statistics, StatisticsModel};

verus! {

/// Size and modification time, in whole seconds since the Unix epoch, of a file.
#[derive(Clone, Copy, Debug, PartialEq, Eq, Structural)]
pub struct FileMeta {
    pub len: u64,
    pub modified_secs: u64,
}

/// What came of the last action a worker performed for a file.
#[derive(Clone, Copy, Debug, PartialEq, Eq, Structural)]
pub enum Event {
    /// The action failed.
    Failed,
    /// The source's metadata was read.
    Source(FileMeta),
    /// The destination's metadata was read; `None` where there is no destination.
    Destination(Option<FileMeta>),
    /// The stale destination was removed.
    Removed,
    /// The compressor wrote the destination.
    Compressed,
    /// The fresh destination has this size.
    Output(u64),
    /// Setting the destination's modification time was attempted.
    Stamped,
}

/// What a worker is to do next for a file.
#[derive(Clone, Copy, Debug, PartialEq, Eq, Structural)]
pub enum Action {
    StatSource,
    StatDestination,
    RemoveStale,
    Compress,
    StatOutput,
    /// Set the destination's modification time to these seconds (best effort).
    Stamp(u64),
    /// Remove the possibly partial destination (best effort) and report the error.
    DiscardPartial,
    /// Nothing is left to do for this file.
    Finish,
}

#[derive(Clone, Copy, Debug, PartialEq, Eq, Structural)]
pub enum Phase {
    AwaitSource,
    AwaitDestination(FileMeta),
    AwaitRemoval(FileMeta),
    AwaitCompression(FileMeta),
    AwaitOutput(FileMeta),
    AwaitStamp,
    Done,
    Failed,
}

/// What a processed file contributes to the statistics.
#[derive(Clone, Copy, Debug, PartialEq, Eq, Structural)]
pub struct Record {
    pub uncompressed: u64,
    pub compressed: u64,
    pub newly_compressed: bool,
}

/// The progress of one file through the skip/recompress decision.
#[derive(Clone, Copy, Debug, PartialEq, Eq, Structural)]
pub struct Job {
    pub phase: Phase,
    pub record: Option<Record>,
}

/// The statistics after one file's record is added.
pub open spec fn recorded(m: StatisticsModel, rec: Record) -> StatisticsModel {
    StatisticsModel {
        this_run: if rec.newly_compressed {
            m.this_run.record(rec.uncompressed as nat, rec.compressed as nat)
        } else {
            m.this_run
        },
        cumulative: m.cumulative.record(rec.uncompressed as nat, rec.compressed as nat),
    }
}

/// The statistics after each record of a run is added in turn.
pub open spec fn recorded_all(m: StatisticsModel, recs: Seq<Record>) -> StatisticsModel
    decreases recs.len(),
{
    if recs.len() == 0 {
        m
    } else {
        recorded(recorded_all(m, recs.drop_last()), recs.last())
    }
}

pub open spec fn initial_job() -> Job {
    Job { phase: Phase::AwaitSource, record: None }
}

/// One step: the state and action that follow an event. An up-to-date
/// destination (same modification second as the source) ends the job as
/// already compressed; a stale one is removed first; any failure discards
/// the destination; a failed timestamp update is ignored.
pub open spec fn next(job: Job, event: Event) -> (Job, Action) {
    let failed = (Job { phase: Phase::Failed, record: None }, Action::DiscardPartial);
    match job.phase {
        Phase::AwaitSource => match event {
            Event::Source(m) => (
                Job { phase: Phase::AwaitDestination(m), record: None },
                Action::StatDestination,
            ),
            _ => failed,
        },
        Phase::AwaitDestination(m) => match event {
            Event::Destination(None) => (
                Job { phase: Phase::AwaitCompression(m), record: None },
                Action::Compress,
            ),
            Event::Destination(Some(d)) => if d.modified_secs == m.modified_secs {
                (
                    Job {
                        phase: Phase::Done,
                        record: Some(
                            Record { uncompressed: m.len, compressed: d.len, newly_compressed: false },
                        ),
                    },
                    Action::Finish,
                )
            } else {
                (Job { phase: Phase::AwaitRemoval(m), record: None }, Action::RemoveStale)
            },
            _ => failed,
        },
        Phase::AwaitRemoval(m) => match event {
            Event::Removed => (
                Job { phase: Phase::AwaitCompression(m), record: None },
                Action::Compress,
            ),
            _ => failed,
        },
        Phase::AwaitCompression(m) => match event {
            Event::Compressed => (
                Job { phase: Phase::AwaitOutput(m), record: None },
                Action::StatOutput,
            ),
            _ => failed,
        },
        Phase::AwaitOutput(m) => match event {
            Event::Output(n) => (
                Job {
                    phase: Phase::AwaitStamp,
                    record: Some(
                        Record { uncompressed: m.len, compressed: n, newly_compressed: true },
                    ),
                },
                Action::Stamp(m.modified_secs),
            ),
            _ => failed,
        },
        Phase::AwaitStamp => (Job { phase: Phase::Done, record: job.record }, Action::Finish),
        Phase::Done => (job, Action::Finish),
        Phase::Failed => (job, Action::Finish),
    }
}

/// The state after a sequence of events, and the actions taken on the way.
pub open spec fn run(job: Job, events: Seq<Event>) -> (Job, Seq<Action>)
    decreases events.len(),
{
    if events.len() == 0 {
        (job, Seq::empty())
    } else {
        let (j, a) = next(job, events[0]);
        let (last, rest) = run(j, events.drop_first());
        (last, seq![a] + rest)
    }
}

impl Job {
    /// A job for a newly received path, and its first action.
    pub fn start() -> (r: (Job, Action))
        ensures
            r.0 == initial_job(),
            r.1 == Action::StatSource,
    {
        (Job { phase: Phase::AwaitSource, record: None }, Action::StatSource)
    }

    /// Takes the outcome of the last action and says what to do next.
    pub fn advance(&mut self, event: Event) -> (a: Action)
        ensures
            (*final(self), a) == next(*old(self), event),
    {
        let failed = (Job { phase: Phase::Failed, record: None }, Action::DiscardPartial);
        let (j, a) = match self.phase {
            Phase::AwaitSource => match event {
                Event::Source(m) => (
                    Job { phase: Phase::AwaitDestination(m), record: None },
                    Action::StatDestination,
                ),
                _ => failed,
            },
            Phase::AwaitDestination(m) => match event {
                Event::Destination(None) => (
                    Job { phase: Phase::AwaitCompression(m), record: None },
                    Action::Compress,
                ),
                Event::Destination(Some(d)) => {
                    if d.modified_secs == m.modified_secs {
                        (
                            Job {
                                phase: Phase::Done,
                                record: Some(
                                    Record {
                                        uncompressed: m.len,
                                        compressed: d.len,
                                        newly_compressed: false,
                                    },
                                ),
                            },
                            Action::Finish,
                        )
                    } else {
                        (Job { phase: Phase::AwaitRemoval(m), record: None }, Action::RemoveStale)
                    }
                },
                _ => failed,
            },
            Phase::AwaitRemoval(m) => match event {
                Event::Removed => (
                    Job { phase: Phase::AwaitCompression(m), record: None },
                    Action::Compress,
                ),
                _ => failed,
            },
            Phase::AwaitCompression(m) => match event {
                Event::Compressed => (
                    Job { phase: Phase::AwaitOutput(m), record: None },
                    Action::StatOutput,
                ),
                _ => failed,
            },
            Phase::AwaitOutput(m) => match event {
                Event::Output(n) => (
                    Job {
                        phase: Phase::AwaitStamp,
                        record: Some(
                            Record { uncompressed: m.len, compressed: n, newly_compressed: true },
                        ),
                    },
                    Action::Stamp(m.modified_secs),
                ),
                _ => failed,
            },
            Phase::AwaitStamp => (Job { phase: Phase::Done, record: self.record }, Action::Finish),
            Phase::Done => (*self, Action::Finish),
            Phase::Failed => (*self, Action::Finish),
        };
        *self = j;
        a
    }

    /// Whether nothing is left to do for this file.
    pub fn is_finished(&self) -> (r: bool)
        ensures
            r == (self.phase == Phase::Done || self.phase == Phase::Failed),
    {
        match self.phase {
            Phase::Done | Phase::Failed => true,
            _ => false,
        }
    }

    /// Adds a finished job's record to `stats`. Returns `false`, leaving
    /// `stats` unchanged, where the job has no record or a counter would
    /// overflow.
    pub fn settle(&self, stats: &mut Statistics) -> (ok: bool)
        requires
            old(stats).wf(),
        ensures
            final(stats).wf(),
            ok == (self.phase == Phase::Done && self.record is Some && old(stats).fits_update(
                self.record->0.uncompressed,
                self.record->0.compressed,
            )),
            ok ==> final(stats)@.cumulative == old(stats)@.cumulative.record(
                self.record->0.uncompressed as nat,
                self.record->0.compressed as nat,
            ),
            ok ==> final(stats)@.this_run == if self.record->0.newly_compressed {
                old(stats)@.this_run.record(
                    self.record->0.uncompressed as nat,
                    self.record->0.compressed as nat,
                )
            } else {
                old(stats)@.this_run
            },
            ok ==> final(stats)@ == recorded(old(stats)@, self.record->0),
            !ok ==> *final(stats) == *old(stats),
    {
        match self.phase {
            Phase::Done => match self.record {
                Some(rec) => {
                    if stats.can_update(rec.uncompressed, rec.compressed) {
                        stats.update(rec.uncompressed, rec.compressed, rec.newly_compressed);
                        true
                    } else {
                        false
                    }
                },
                None => false,
            },
            _ => false,
        }
    }
}

/// The events of a file compressed with no destination present.
pub open spec fn fresh_events(src: FileMeta, out_len: u64) -> Seq<Event> {
    seq![
        Event::Source(src),
        Event::Destination(None),
        Event::Compressed,
        Event::Output(out_len),
        Event::Stamped,
    ]
}

/// The events of a file whose destination is found with this metadata.
pub open spec fn found_events(src: FileMeta, dst: FileMeta) -> Seq<Event> {
    seq![Event::Source(src), Event::Destination(Some(dst))]
}

/// A compressed file is stamped with its source's modification time, and
/// is recorded as newly compressed.
pub proof fn lemma_fresh_run_stamps_source_time(src: FileMeta, out_len: u64)
    ensures
        run(initial_job(), fresh_events(src, out_len)) == (
            Job {
                phase: Phase::Done,
                record: Some(
                    Record { uncompressed: src.len, compressed: out_len, newly_compressed: true },
                ),
            },
            seq![
                Action::StatDestination,
                Action::Compress,
                Action::StatOutput,
                Action::Stamp(src.modified_secs),
                Action::Finish,
            ],
        ),
{
    reveal_with_fuel(run, 6);
    let e = fresh_events(src, out_len);
    assert(e.drop_first() =~= seq![Event::Destination(None), Event::Compressed, Event::Output(out_len), Event::Stamped]);
    assert(e.drop_first().drop_first() =~= seq![Event::Compressed, Event::Output(out_len), Event::Stamped]);
    assert(e.drop_first().drop_first().drop_first() =~= seq![Event::Output(out_len), Event::Stamped]);
    assert(e.drop_first().drop_first().drop_first().drop_first() =~= seq![Event::Stamped]);
    assert(seq![Event::Stamped].drop_first() =~= Seq::<Event>::empty());
    assert(run(initial_job(), e).1 =~= seq![
        Action::StatDestination,
        Action::Compress,
        Action::StatOutput,
        Action::Stamp(src.modified_secs),
        Action::Finish,
    ]);
}

/// Running again with no source change does nothing: after a run that
/// compressed the file and stamped the destination with the source's time,
/// a second run that finds that destination neither removes nor rewrites
/// it, and records the file as already compressed, not as compressed now.
pub proof fn lemma_rerun_is_idempotent(src: FileMeta, out_len: u64)
    ensures
        ({
            let first = run(initial_job(), fresh_events(src, out_len));
            let stamped = FileMeta { len: out_len, modified_secs: src.modified_secs };
            let second = run(initial_job(), found_events(src, stamped));
            &&& first.1.contains(Action::Stamp(stamped.modified_secs))
            &&& second.1 == seq![Action::StatDestination, Action::Finish]
            &&& !second.1.contains(Action::Compress)
            &&& !second.1.contains(Action::RemoveStale)
            &&& second.0.phase == Phase::Done
            &&& second.0.record == Some(
                Record { uncompressed: src.len, compressed: out_len, newly_compressed: false },
            )
        }),
{
    lemma_fresh_run_stamps_source_time(src, out_len);
    let stamped = FileMeta { len: out_len, modified_secs: src.modified_secs };
    let first = run(initial_job(), fresh_events(src, out_len));
    assert(first.1[3] == Action::Stamp(src.modified_secs));
    reveal_with_fuel(run, 3);
    let e = found_events(src, stamped);
    assert(e.drop_first() =~= seq![Event::Destination(Some(stamped))]);
    assert(e.drop_first().drop_first() =~= Seq::<Event>::empty());
    let second = run(initial_job(), e);
    assert(second.1 =~= seq![Action::StatDestination, Action::Finish]);
    assert(!second.1.contains(Action::Compress)) by {
        if second.1.contains(Action::Compress) {
            let k = choose|k: int| 0 <= k < second.1.len() && second.1[k] == Action::Compress;
        }
    }
    assert(!second.1.contains(Action::RemoveStale)) by {
        if second.1.contains(Action::RemoveStale) {
            let k = choose|k: int| 0 <= k < second.1.len() && second.1[k] == Action::RemoveStale;
        }
    }
}

/// A run in which every file was found up to date compresses nothing now:
/// the this-run counters stay as they were, and each file is counted once
/// among the cumulative totals.
pub proof fn lemma_up_to_date_run_counts_nothing_now(m: StatisticsModel, recs: Seq<Record>)
    requires
        forall|i: int| 0 <= i < recs.len() ==> !(#[trigger] recs[i]).newly_compressed,
    ensures
        recorded_all(m, recs).this_run == m.this_run,
        recorded_all(m, recs).cumulative.files == m.cumulative.files + recs.len(),
    decreases recs.len(),
{
    if recs.len() > 0 {
        lemma_up_to_date_run_counts_nothing_now(m, recs.drop_last());
        assert(!recs[recs.len() - 1].newly_compressed);
    }
}

/// A destination whose modification second differs from the source's is
/// removed and regenerated, and the new one is stamped with the source's
/// modification time.
pub proof fn lemma_stale_destination_is_replaced(src: FileMeta, old_dst: FileMeta, out_len: u64)
    requires
        old_dst.modified_secs != src.modified_secs,
    ensures
        run(
            initial_job(),
            seq![
                Event::Source(src),
                Event::Destination(Some(old_dst)),
                Event::Removed,
                Event::Compressed,
                Event::Output(out_len),
                Event::Stamped,
            ],
        ) == (
            Job {
                phase: Phase::Done,
                record: Some(
                    Record { uncompressed: src.len, compressed: out_len, newly_compressed: true },
                ),
            },
            seq![
                Action::StatDestination,
                Action::RemoveStale,
                Action::Compress,
                Action::StatOutput,
                Action::Stamp(src.modified_secs),
                Action::Finish,
            ],
        ),
{
    reveal_with_fuel(run, 7);
    let e = seq![
        Event::Source(src),
        Event::Destination(Some(old_dst)),
        Event::Removed,
        Event::Compressed,
        Event::Output(out_len),
        Event::Stamped,
    ];
    assert(e.drop_first() =~= seq![Event::Destination(Some(old_dst)), Event::Removed, Event::Compressed, Event::Output(out_len), Event::Stamped]);
    assert(e.drop_first().drop_first() =~= seq![Event::Removed, Event::Compressed, Event::Output(out_len), Event::Stamped]);
    assert(e.drop_first().drop_first().drop_first() =~= seq![Event::Compressed, Event::Output(out_len), Event::Stamped]);
    assert(e.drop_first().drop_first().drop_first().drop_first() =~= seq![Event::Output(out_len), Event::Stamped]);
    assert(e.drop_first().drop_first().drop_first().drop_first().drop_first() =~= seq![Event::Stamped]);
    assert(seq![Event::Stamped].drop_first() =~= Seq::<Event>::empty());
    assert(run(initial_job(), e).1 =~= seq![
        Action::StatDestination,
        Action::RemoveStale,
        Action::Compress,
        Action::StatOutput,
        Action::Stamp(src.modified_secs),
        Action::Finish,
    ]);
}

} // verus!
