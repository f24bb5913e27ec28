//! The accumulators: a pluggable sink for per-file records that keeps
//! a running summary in constant time and can hand the records back
//! in insertion order.  One strategy keeps every record in memory;
//! the other spills each record to a private temporary file and keeps
//! only the summary resident.

use vstd::prelude::*;
use crate::codec::{
    decode_file_stats, enc_file_stats, encode_file_stats, file_in_range, lemma_round_trip,
};
use crate::spill::{
    spill_append, spill_flush, spill_new, spill_read_lines, store_clean, store_lines, store_synced,
    SpillStore,
};
use crate::stats::{summary_can_add, summary_of, FileModel, FileStats, Summary};

verus! {

/// A sink for per-file records.  Adding a record updates the running
/// summary in constant time; the records can be enumerated again in
/// the order they came in.
pub trait StatsAccumulator: Sized {
    /// The records taken in so far, in order.
    spec fn records(&self) -> Seq<FileModel>;

    /// The accumulator's internal consistency: the summary is the
    /// fold of the records.
    spec fn wf(&self) -> bool;

    /// Whether an enumeration now would see every record taken in.
    spec fn iter_ready(&self) -> bool;

    /// Whether one more record can be taken without a count leaving
    /// `usize`.
    fn fits(&self, file_stats: &FileStats) -> (r: bool)
        requires
            self.wf(),
        ensures
            r == summary_can_add(summary_of(self.records()), file_stats@),
    ;

    /// Takes one record in: the summary gains it, and it stands after
    /// the earlier records.  On an error the records taken so far are
    /// kept and the record is not counted.
    fn add_file(&mut self, file_stats: &FileStats) -> (r: Result<(), String>)
        requires
            old(self).wf(),
            summary_can_add(summary_of(old(self).records()), file_stats@),
        ensures
            final(self).wf(),
            match r {
                Ok(_) => final(self).records() == old(self).records().push(file_stats@),
                Err(_) => final(self).records() == old(self).records(),
            },
    ;

    /// A constant-time snapshot: the summary of exactly the records
    /// taken so far.
    fn get_summary(&self) -> (s: Summary)
        requires
            self.wf(),
        ensures
            s@ == summary_of(self.records()),
    ;

    /// Enumerates the records in insertion order.  Whenever the
    /// accumulator is ready — and an unmutated accumulator stays
    /// ready — the result is exactly the records, so repeated
    /// enumerations yield the same sequence.
    fn iter_files(&self) -> (r: Result<Vec<FileStats>, String>)
        requires
            self.wf(),
        ensures
            match r {
                Ok(v) => self.iter_ready() ==> v@.map_values(|f: FileStats| f@) == self.records(),
                Err(_) => true,
            },
    ;
}

/// Enumerating an unmutated accumulator twice yields sequences of
/// equal length and equal content: each enumeration is exactly the
/// records held.
pub proof fn lemma_iterate_restartable<A: StatsAccumulator>(
    acc: &A,
    r1: Seq<FileModel>,
    r2: Seq<FileModel>,
)
    requires
        acc.iter_ready(),
        r1 == acc.records(),
        r2 == acc.records(),
    ensures
        r1.len() == r2.len(),
        r1 == r2,
{
}

// ---------------------------------------------------------------------
// The in-memory strategy
// ---------------------------------------------------------------------

/// The bounded strategy: keeps every record in memory, in order.
pub struct InMemoryAccumulator {
    summary: Summary,
    files: Vec<FileStats>,
}

impl InMemoryAccumulator {
    /// An accumulator holding nothing.
    pub fn new() -> (r: Self)
        ensures
            r.wf(),
            r.records() == Seq::<FileModel>::empty(),
            r.iter_ready(),
    {
        let r = InMemoryAccumulator { summary: Summary::default(), files: Vec::new() };
        proof {
            assert(r.records() =~= Seq::<FileModel>::empty());
        }
        r
    }
}

impl Default for InMemoryAccumulator {
    /// An accumulator holding nothing.
    fn default() -> (r: Self)
        ensures
            r.wf(),
            r.records() == Seq::<FileModel>::empty(),
            r.iter_ready(),
    {
        Self::new()
    }
}

impl StatsAccumulator for InMemoryAccumulator {
    closed spec fn records(&self) -> Seq<FileModel> {
        self.files@.map_values(|f: FileStats| f@)
    }

    closed spec fn wf(&self) -> bool {
        self.summary@ == summary_of(self.records())
    }

    closed spec fn iter_ready(&self) -> bool {
        true
    }

    fn fits(&self, file_stats: &FileStats) -> (r: bool) {
        self.summary.can_add_file(file_stats)
    }

    fn add_file(&mut self, file_stats: &FileStats) -> (r: Result<(), String>)
        // this strategy never fails, and stays ready to enumerate
        ensures
            r is Ok,
            final(self).iter_ready(),
    {
        self.summary.add_file(file_stats);
        self.files.push(file_stats.clone());
        proof {
            assert(self.records() =~= old(self).records().push(file_stats@));
            assert(self.records().drop_last() =~= old(self).records());
        }
        Ok(())
    }

    fn get_summary(&self) -> (s: Summary) {
        self.summary
    }

    fn iter_files(&self) -> (r: Result<Vec<FileStats>, String>)
        // this strategy never fails, and always hands back exactly the
        // records
        ensures
            r is Ok,
            match r {
                Ok(v) => v@.map_values(|f: FileStats| f@) == self.records(),
                Err(_) => true,
            },
    {
        let mut out: Vec<FileStats> = Vec::new();
        let mut i: usize = 0;
        while i < self.files.len()
            invariant
                0 <= i <= self.files@.len(),
                out@.len() == i,
                forall|k: int| 0 <= k < i ==> (#[trigger] out@[k])@ == self.files@[k]@,
            decreases self.files@.len() - i,
        {
            out.push(self.files[i].clone());
            i = i + 1;
        }
        proof {
            assert(out@.map_values(|f: FileStats| f@) =~= self.records());
        }
        Ok(out)
    }
}

// ---------------------------------------------------------------------
// The spill-to-storage strategy
// ---------------------------------------------------------------------

/// The unbounded strategy: keeps only the running summary in memory
/// and appends each record, encoded on one line, to a private
/// temporary file that lives and dies with the accumulator.
pub struct FileBackedAccumulator {
    summary: Summary,
    store: SpillStore,
    failed: bool,
    records_ghost: Ghost<Seq<FileModel>>,
}

impl FileBackedAccumulator {
    /// Whether no write has failed.  A failed store is fatal to the
    /// instance: later additions are refused, and of an enumeration
    /// only the records already taken are still promised.
    pub closed spec fn is_live(&self) -> bool {
        !self.failed
    }

    /// Whether everything appended has reached the temporary file.
    pub closed spec fn synced(&self) -> bool {
        store_synced(self.store)
    }

    /// Creates the accumulator and its temporary storage.  Fails only
    /// when the temporary file cannot be created.
    pub fn new() -> (r: Result<Self, String>)
        ensures
            match r {
                Ok(a) => a.wf() && a.records() == Seq::<FileModel>::empty() && a.iter_ready()
                    && a.is_live(),
                Err(_) => true,
            },
    {
        let store = match spill_new() {
            Ok(s) => s,
            Err(e) => {
                return Err(e);
            },
        };
        let r = FileBackedAccumulator {
            summary: Summary::default(),
            store,
            failed: false,
            records_ghost: Ghost(Seq::empty()),
        };
        proof {
            assert(r.records_ghost@.map_values(|f: FileModel| enc_file_stats(f))
                =~= Seq::<Seq<char>>::empty());
        }
        Ok(r)
    }

    /// Pushes everything buffered out to the temporary file, so that
    /// an enumeration sees every record taken so far.
    pub fn flush(&mut self) -> (r: Result<(), String>)
        requires
            old(self).wf(),
        ensures
            final(self).wf(),
            final(self).records() == old(self).records(),
            final(self).is_live() == old(self).is_live(),
            r is Ok ==> final(self).synced(),
            r is Ok && old(self).is_live() ==> final(self).iter_ready(),
    {
        spill_flush(&mut self.store)
    }
}

/// Whether a text holds a line break.
fn has_line_break(s: &str) -> (r: bool)
    ensures
        r == exists|k: int| 0 <= k < s@.len() && (s@[k] == '\n' || s@[k] == '\r'),
{
    let n = s.unicode_len();
    let mut i: usize = 0;
    while i < n
        invariant
            0 <= i <= n,
            n == s@.len(),
            forall|k: int| 0 <= k < i ==> s@[k] != '\n' && s@[k] != '\r',
        decreases n - i,
    {
        let c = s.get_char(i);
        if c == '\n' || c == '\r' {
            return true;
        }
        i = i + 1;
    }
    false
}

impl StatsAccumulator for FileBackedAccumulator {
    closed spec fn records(&self) -> Seq<FileModel> {
        self.records_ghost@
    }

    closed spec fn wf(&self) -> bool {
        &&& self.summary@ == summary_of(self.records_ghost@)
        &&& forall|i: int|
            0 <= i < self.records_ghost@.len() ==> file_in_range(#[trigger] self.records_ghost@[i])
        &&& (self.is_live() ==> store_clean(self.store) && store_lines(self.store)
            == self.records_ghost@.map_values(|f: FileModel| enc_file_stats(f)))
        &&& (!self.is_live() ==> self.records_ghost@.map_values(
            |f: FileModel| enc_file_stats(f),
        ).is_prefix_of(store_lines(self.store)))
    }

    closed spec fn iter_ready(&self) -> bool {
        self.is_live() && self.synced()
    }

    fn fits(&self, file_stats: &FileStats) -> (r: bool) {
        self.summary.can_add_file(file_stats)
    }

    fn add_file(&mut self, file_stats: &FileStats) -> (r: Result<(), String>)
        // a record is only ever taken by a live store, which stays live
        ensures
            r is Ok ==> old(self).is_live() && final(self).is_live(),
    {
        if self.failed {
            return Err(String::from_str("Accumulator storage failed earlier"));
        }
        let line = encode_file_stats(file_stats);
        if has_line_break(line.as_str()) {
            // encoded records never hold one; refuse rather than split
            // a stored line
            return Err(String::from_str("Record cannot be stored on one line"));
        }
        match spill_append(&mut self.store, line.as_str()) {
            Ok(_) => {
                self.summary.add_file(file_stats);
                proof {
                    self.records_ghost@ = self.records_ghost@.push(file_stats@);
                    assert(self.records_ghost@.drop_last() =~= old(self).records_ghost@);
                    assert(store_lines(self.store) =~= self.records_ghost@.map_values(
                        |f: FileModel| enc_file_stats(f),
                    ));
                }
                Ok(())
            },
            Err(e) => {
                self.failed = true;
                proof {
                    // the records' encodings were the stored lines, and a
                    // failed append keeps them as a prefix of the store
                    assert(self.records_ghost@.map_values(
                        |f: FileModel| enc_file_stats(f),
                    ).is_prefix_of(store_lines(self.store)));
                }
                Err(e)
            },
        }
    }

    fn get_summary(&self) -> (s: Summary) {
        self.summary
    }

    fn iter_files(&self) -> (r: Result<Vec<FileStats>, String>)
        // once everything has reached the file, the records taken come
        // back at the front of the enumeration even after a failed
        // write: the fragment such a write can leave never decodes
        ensures
            match r {
                Ok(v) => self.synced() ==> self.records().is_prefix_of(
                    v@.map_values(|f: FileStats| f@),
                ),
                Err(_) => true,
            },
    {
        let lines = match spill_read_lines(&self.store) {
            Ok(v) => v,
            Err(e) => {
                return Err(e);
            },
        };
        let ghost recs = self.records();
        let ghost lv = lines@.map_values(|l: String| l@);
        let ghost encs = recs.map_values(|f: FileModel| enc_file_stats(f));
        proof {
            if self.synced() {
                // the stored lines open with the records' encodings,
                // exactly when the store is live, as a prefix otherwise
                if self.is_live() {
                    assert(encs.is_prefix_of(lv)) by {
                        assert(store_lines(self.store).is_prefix_of(lv));
                    }
                    assert(lv == encs);
                    assert(lines@.len() == recs.len());
                } else {
                    let sl = store_lines(self.store);
                    assert(encs.is_prefix_of(sl));
                    assert(sl.is_prefix_of(lv));
                    assert forall|k: int| 0 <= k < encs.len() implies lv[k] == encs[k] by {
                        assert(sl.subrange(0, encs.len() as int)[k] == sl[k]);
                        assert(lv.subrange(0, sl.len() as int)[k] == lv[k]);
                    }
                    assert(encs.is_prefix_of(lv)) by {
                        assert(encs =~= lv.subrange(0, encs.len() as int)) by {
                            assert(forall|k: int|
                                0 <= k < encs.len() ==> lv.subrange(0, encs.len() as int)[k]
                                    == lv[k]);
                        }
                    }
                }
                assert forall|k: int| 0 <= k < recs.len() implies lv[k] == enc_file_stats(
                    #[trigger] recs[k],
                ) by {
                    assert(lv.subrange(0, encs.len() as int)[k] == lv[k]);
                    assert(encs[k] == enc_file_stats(recs[k]));
                }
            }
        }
        let mut out: Vec<FileStats> = Vec::new();
        let mut i: usize = 0;
        while i < lines.len()
            invariant
                0 <= i <= lines@.len(),
                self.wf(),
                recs == self.records(),
                lv == lines@.map_values(|l: String| l@),
                lines@.len() == lv.len(),
                self.synced() ==> {
                    &&& recs.len() <= lv.len()
                    &&& forall|k: int|
                        0 <= k < recs.len() ==> lv[k] == enc_file_stats(#[trigger] recs[k])
                    &&& (i <= recs.len() ==> out@.map_values(|f: FileStats| f@) == recs.take(
                        i as int,
                    ))
                    &&& (i > recs.len() ==> recs.is_prefix_of(out@.map_values(|f: FileStats| f@)))
                },
                self.iter_ready() ==> lv == recs.map_values(|f: FileModel| enc_file_stats(f)),
            decreases lines@.len() - i,
        {
            let ghost out_pre = out@.map_values(|f: FileStats| f@);
            proof {
                assert(lines@.map_values(|l: String| l@)[i as int] == lines@[i as int]@);
                if self.synced() && i < recs.len() {
                    let f = recs[i as int];
                    assert(lines@[i as int]@ == enc_file_stats(f));
                    assert(file_in_range(f));
                    lemma_round_trip(f);
                }
            }
            match decode_file_stats(lines[i].as_str()) {
                Some(fs) => {
                    out.push(fs);
                },
                None => {
                    // a malformed stored line is dropped, never fatal
                },
            }
            proof {
                if self.synced() {
                    let out_post = out@.map_values(|f: FileStats| f@);
                    if i < recs.len() {
                        assert(out_post =~= recs.take(i as int + 1));
                    } else {
                        // past the records the output only grows at the
                        // end, so they stay at its front
                        assert(recs.is_prefix_of(out_pre)) by {
                            if i == recs.len() {
                                assert(out_pre == recs.take(recs.len() as int));
                                assert(recs.take(recs.len() as int) =~= recs);
                                assert(recs =~= out_pre.subrange(0, recs.len() as int));
                            }
                        }
                        assert(recs.is_prefix_of(out_post)) by {
                            assert(recs =~= out_post.subrange(0, recs.len() as int)) by {
                                assert(forall|k: int|
                                    0 <= k < recs.len() ==> out_post.subrange(
                                        0,
                                        recs.len() as int,
                                    )[k] == out_post[k]);
                                assert(forall|k: int|
                                    0 <= k < recs.len() ==> out_pre.subrange(
                                        0,
                                        recs.len() as int,
                                    )[k] == out_pre[k]);
                            }
                        }
                    }
                }
            }
            i = i + 1;
        }
        proof {
            if self.synced() {
                if i <= recs.len() {
                    // every line was one record: the output is all of them
                    assert(recs.len() <= lv.len());
                    assert(i == lines@.len());
                    assert(out@.map_values(|f: FileStats| f@) == recs.take(i as int));
                    assert(recs.take(recs.len() as int) =~= recs);
                    assert(recs.is_prefix_of(out@.map_values(|f: FileStats| f@))) by {
                        let om = out@.map_values(|f: FileStats| f@);
                        assert(recs =~= om.subrange(0, recs.len() as int));
                    }
                }
            }
            if self.iter_ready() {
                assert(lv.len() == recs.len());
                assert(out@.map_values(|f: FileStats| f@) == recs.take(recs.len() as int));
                assert(recs.take(recs.len() as int) =~= recs);
            }
        }
        Ok(out)
    }
}

} // verus!
