//! The directory coordinator's decisions: the size threshold, the
//! per-file bookkeeping around the accumulator, and the batch
//! verdicts.  The surrounding loop — reading, parsing and analyzing
//! candidates, possibly many at a time — hands each file's outcome in
//! as an event; the only serialization point is the accumulator.

use vstd::prelude::*;
use crate::accum::StatsAccumulator;
use crate::stats::{summary_of, FileModel, FileStats};

verus! {

/// Whether a file of this size passes the optional threshold.
pub open spec fn within_limit_spec(size: u64, max: Option<u64>) -> bool {
    match max {
        None => true,
        Some(m) => size <= m,
    }
}

/// Decides the size check: with no threshold every file passes; with
/// one, a file exactly at the threshold passes and one byte over is
/// refused.
pub fn within_limit(size: u64, max_file_size: Option<u64>) -> (r: bool)
    ensures
        r == within_limit_spec(size, max_file_size),
{
    match max_file_size {
        None => true,
        Some(m) => size <= m,
    }
}

/// What happened to one candidate file.
pub enum FileEvent {
    /// The file was read, parsed and reduced to a record.
    Analyzed(FileStats),
    /// The file was over the size threshold and skipped before
    /// parsing.
    TooLarge,
    /// The file could not be read or processed.
    Failed,
}

/// The count of oversize events.
pub open spec fn count_too_large(es: Seq<FileEvent>) -> int
    decreases es.len(),
{
    if es.len() == 0 {
        0
    } else {
        count_too_large(es.drop_last()) + match es.last() {
            FileEvent::TooLarge => 1int,
            _ => 0,
        }
    }
}

/// The records carried by the analyzed events, in order.
pub open spec fn analyzed_payloads(es: Seq<FileEvent>) -> Seq<FileModel>
    decreases es.len(),
{
    if es.len() == 0 {
        Seq::empty()
    } else {
        match es.last() {
            FileEvent::Analyzed(fs) => analyzed_payloads(es.drop_last()).push(fs@),
            _ => analyzed_payloads(es.drop_last()),
        }
    }
}

/// Whether `a` is `b` with zero or more elements left out, order kept.
pub open spec fn is_subsequence_of(a: Seq<FileModel>, b: Seq<FileModel>) -> bool
    decreases b.len(),
{
    if a.len() == 0 {
        true
    } else if b.len() == 0 {
        false
    } else if a.last() == b.last() {
        is_subsequence_of(a.drop_last(), b.drop_last()) || is_subsequence_of(a, b.drop_last())
    } else {
        is_subsequence_of(a, b.drop_last())
    }
}

proof fn lemma_subseq_extend_right(a: Seq<FileModel>, b: Seq<FileModel>, x: FileModel)
    requires
        is_subsequence_of(a, b),
    ensures
        is_subsequence_of(a, b.push(x)),
{
    assert(b.push(x).drop_last() =~= b);
    assert(b.push(x).last() == x);
}

proof fn lemma_subseq_extend_both(a: Seq<FileModel>, b: Seq<FileModel>, x: FileModel)
    requires
        is_subsequence_of(a, b),
    ensures
        is_subsequence_of(a.push(x), b.push(x)),
{
    assert(a.push(x).drop_last() =~= a);
    assert(b.push(x).drop_last() =~= b);
    assert(a.push(x).last() == x);
    assert(b.push(x).last() == x);
}

/// The coordinator's counters.  They are kept beside the accumulator,
/// not inside it, and converge with its summary once all events are
/// recorded.
#[derive(Clone, Copy, Debug, PartialEq, Eq, Structural)]
pub struct BatchState {
    /// Files whose record reached the accumulator.
    pub analyzed: usize,
    /// Files skipped for exceeding the size threshold.
    pub skipped: usize,
}

/// The two ways a batch as a whole fails.
#[derive(Clone, Copy, Debug, PartialEq, Eq, Structural)]
pub enum BatchError {
    /// There was no candidate at all: refused before any work.
    NoCandidates,
    /// Every candidate was skipped or failed: nothing was analyzed.
    NothingAnalyzed,
}

impl BatchError {
    /// The operator-facing description, naming the directory.
    pub fn message(&self, dir: &str) -> (r: String)
        ensures
            *self == BatchError::NoCandidates ==> r@ == "No Rust files found in "@ + dir@,
            *self == BatchError::NothingAnalyzed ==> r@ == "No Rust files could be analyzed in "@
                + dir@,
    {
        let mut s = match self {
            BatchError::NoCandidates => String::from_str("No Rust files found in "),
            BatchError::NothingAnalyzed => String::from_str("No Rust files could be analyzed in "),
        };
        s.append(dir);
        s
    }
}

/// A batch must have candidates: an empty list is refused before any
/// work, with the distinct no-candidates error.
pub fn check_candidates(n_candidates: usize) -> (r: Result<(), BatchError>)
    ensures
        match r {
            Ok(_) => n_candidates > 0,
            Err(e) => n_candidates == 0 && e == BatchError::NoCandidates,
        },
{
    if n_candidates == 0 {
        Err(BatchError::NoCandidates)
    } else {
        Ok(())
    }
}

impl BatchState {
    /// No file seen yet.
    pub fn new() -> (r: Self)
        ensures
            r.analyzed == 0,
            r.skipped == 0,
    {
        BatchState { analyzed: 0, skipped: 0 }
    }

    /// Records one file's outcome: a record goes into the accumulator
    /// and counts as analyzed when that succeeds; an oversize file
    /// counts as skipped; a failed file counts nowhere — the caller
    /// reports it and the batch goes on.  An error says why a record
    /// could not be added; the accumulator keeps what it had.
    pub fn record<A: StatsAccumulator>(&mut self, acc: &mut A, event: &FileEvent) -> (r: Result<
        (),
        String,
    >)
        requires
            old(acc).wf(),
            old(self).skipped < usize::MAX,
            old(self).analyzed <= summary_of(old(acc).records()).files,
        ensures
            final(acc).wf(),
            final(self).analyzed <= summary_of(final(acc).records()).files,
            match event {
                FileEvent::Analyzed(fs) => final(self).skipped == old(self).skipped && (match r {
                    Ok(_) => final(acc).records() == old(acc).records().push(fs@)
                        && final(self).analyzed == old(self).analyzed + 1,
                    Err(_) => final(acc).records() == old(acc).records() && final(self).analyzed
                        == old(self).analyzed,
                }),
                FileEvent::TooLarge => r is Ok && final(acc).records() == old(acc).records()
                    && final(self).skipped == old(self).skipped + 1
                    && final(self).analyzed == old(self).analyzed,
                FileEvent::Failed => r is Ok && final(acc).records() == old(acc).records()
                    && *final(self) == *old(self),
            },
    {
        match event {
            FileEvent::Analyzed(fs) => {
                if !acc.fits(fs) {
                    return Err(String::from_str("Record would overflow the running summary"));
                }
                match acc.add_file(fs) {
                    Ok(_) => {
                        self.analyzed = self.analyzed + 1;
                        proof {
                            assert(summary_of(acc.records()).files == summary_of(
                                old(acc).records(),
                            ).files + 1) by {
                                assert(acc.records().drop_last() =~= old(acc).records());
                            }
                        }
                        Ok(())
                    },
                    Err(e) => Err(e),
                }
            },
            FileEvent::TooLarge => {
                self.skipped = self.skipped + 1;
                Ok(())
            },
            FileEvent::Failed => Ok(()),
        }
    }
}

/// A batch that ran must have analyzed something: when every
/// candidate was skipped or failed, the distinct exhaustion error
/// comes back.
pub fn batch_verdict(state: &BatchState) -> (r: Result<(), BatchError>)
    ensures
        match r {
            Ok(_) => state.analyzed > 0,
            Err(e) => state.analyzed == 0 && e == BatchError::NothingAnalyzed,
        },
{
    if state.analyzed == 0 {
        Err(BatchError::NothingAnalyzed)
    } else {
        Ok(())
    }
}

/// Runs one batch of per-file events serially: refuses an empty list
/// before touching the accumulator, records every event, and judges
/// the outcome.  The records the accumulator gains are exactly the
/// successfully recorded analyzed payloads, in order; the analyzed
/// count is their number, and the skipped count is exactly the
/// oversize events.
pub fn run_batch<A: StatsAccumulator>(events: &Vec<FileEvent>, acc: &mut A) -> (r: Result<
    BatchState,
    BatchError,
>)
    requires
        old(acc).wf(),
    ensures
        final(acc).wf(),
        old(acc).records().is_prefix_of(final(acc).records()),
        is_subsequence_of(
            final(acc).records().skip(old(acc).records().len() as int),
            analyzed_payloads(events@),
        ),
        match r {
            Ok(st) => {
                &&& events@.len() > 0
                &&& st.analyzed > 0
                &&& st.analyzed == final(acc).records().len() - old(acc).records().len()
                &&& st.skipped == count_too_large(events@)
            },
            Err(e) => match e {
                BatchError::NoCandidates => events@.len() == 0 && final(acc).records() == old(
                    acc,
                ).records(),
                BatchError::NothingAnalyzed => events@.len() > 0 && final(acc).records() == old(
                    acc,
                ).records(),
            },
        },
{
    if let Err(e) = check_candidates(events.len()) {
        proof {
            assert(old(acc).records().skip(old(acc).records().len() as int)
                =~= Seq::<FileModel>::empty());
            assert(old(acc).records() =~= old(acc).records().subrange(
                0,
                old(acc).records().len() as int,
            ));
        }
        return Err(e);
    }
    let mut state = BatchState::new();
    let mut i: usize = 0;
    proof {
        lemma_summary_of_len(old(acc).records());
        assert(events@.take(0) =~= Seq::<FileEvent>::empty());
        assert(acc.records().skip(old(acc).records().len() as int)
            =~= Seq::<FileModel>::empty());
    }
    while i < events.len()
        invariant
            0 <= i <= events@.len(),
            acc.wf(),
            state.analyzed <= summary_of(acc.records()).files,
            state.analyzed == acc.records().len() - old(acc).records().len(),
            acc.records().len() >= old(acc).records().len(),
            old(acc).records().is_prefix_of(acc.records()),
            state.analyzed == 0 ==> acc.records() == old(acc).records(),
            state.skipped == count_too_large(events@.take(i as int)),
            state.skipped <= i,
            is_subsequence_of(
                acc.records().skip(old(acc).records().len() as int),
                analyzed_payloads(events@.take(i as int)),
            ),
        decreases events@.len() - i,
    {
        proof {
            lemma_summary_of_len(acc.records());
            assert(events@.take(i as int + 1).drop_last() =~= events@.take(i as int));
            assert(events@.take(i as int + 1).last() == events@[i as int]);
        }
        let ghost pre = acc.records();
        let outcome = state.record(acc, &events[i]);
        proof {
            if acc.records() != pre {
                assert(acc.records() == pre.push(events@[i as int]->Analyzed_0@));
                assert(pre.is_prefix_of(acc.records())) by {
                    assert(acc.records().take(pre.len() as int) =~= pre);
                }
            }
            // the records gained so far stay a subsequence of the
            // analyzed payloads seen so far
            let n = old(acc).records().len() as int;
            let g_pre = pre.skip(n);
            let g_post = acc.records().skip(n);
            let pay_pre = analyzed_payloads(events@.take(i as int));
            let pay_post = analyzed_payloads(events@.take(i as int + 1));
            match events@[i as int] {
                FileEvent::Analyzed(fs) => {
                    assert(pay_post == pay_pre.push(fs@));
                    if acc.records() == pre {
                        lemma_subseq_extend_right(g_pre, pay_pre, fs@);
                    } else {
                        assert(g_post =~= g_pre.push(fs@));
                        lemma_subseq_extend_both(g_pre, pay_pre, fs@);
                    }
                },
                FileEvent::TooLarge => {
                    assert(pay_post == pay_pre);
                    assert(g_post == g_pre);
                },
                FileEvent::Failed => {
                    assert(pay_post == pay_pre);
                    assert(g_post == g_pre);
                },
            }
        }
        if outcome.is_err() {
            // the caller would report the message; the batch goes on
        }
        i = i + 1;
    }
    proof {
        assert(events@.take(events@.len() as int) =~= events@);
    }
    match batch_verdict(&state) {
        Ok(_) => Ok(state),
        Err(e) => Err(e),
    }
}

/// The file count of a fold is the record count.
pub proof fn lemma_summary_of_len(s: Seq<FileModel>)
    ensures
        summary_of(s).files == s.len(),
    decreases s.len(),
{
    if s.len() > 0 {
        lemma_summary_of_len(s.drop_last());
    }
}

} // verus!
