//! The statistics data model: per-line categories, per-scope line
//! counts, per-file records, and the running summary.

use vstd::prelude::*;

verus! {

/// The category of a single source line.  Every line of a file falls
/// into exactly one of these.
#[derive(Clone, Copy, Debug, PartialEq, Eq, Structural)]
pub enum LineType {
    /// A line holding only whitespace.
    Blank,
    /// A line of an ordinary comment.
    Comment,
    /// A line of a doc comment (`///`, `//!`, `/**`, `/*!`).
    Rustdoc,
    /// A line holding any other token.
    Code,
}

/// Mathematical model of a `LineStats` value: the five counts as
/// unbounded integers.
pub struct LineTally {
    pub all: int,
    pub blank: int,
    pub comment: int,
    pub rustdoc: int,
    pub code: int,
}

/// The zero tally: no lines at all.
pub open spec fn tally_zero() -> LineTally {
    LineTally { all: 0, blank: 0, comment: 0, rustdoc: 0, code: 0 }
}

/// Component-wise sum of two tallies.
pub open spec fn tally_add(a: LineTally, b: LineTally) -> LineTally {
    LineTally {
        all: a.all + b.all,
        blank: a.blank + b.blank,
        comment: a.comment + b.comment,
        rustdoc: a.rustdoc + b.rustdoc,
        code: a.code + b.code,
    }
}

/// A tally is consistent when the four categories partition the lines.
pub open spec fn tally_wf(t: LineTally) -> bool {
    &&& t.all >= 0
    &&& t.blank >= 0
    &&& t.comment >= 0
    &&& t.rustdoc >= 0
    &&& t.code >= 0
    &&& t.blank + t.comment + t.rustdoc + t.code == t.all
}

/// All five counts fit a `usize` value.
pub open spec fn tally_fits(t: LineTally) -> bool {
    &&& t.all <= usize::MAX
    &&& t.blank <= usize::MAX
    &&& t.comment <= usize::MAX
    &&& t.rustdoc <= usize::MAX
    &&& t.code <= usize::MAX
}

/// Line counts for one scope (a file, or its production or test part).
#[derive(Clone, Copy, Debug, PartialEq, Eq, Structural)]
pub struct LineStats {
    /// Count of all lines in the scope.
    pub all_lines: usize,
    /// Count of lines holding only whitespace.
    pub blank_lines: usize,
    /// Count of ordinary comment lines.
    pub comment_lines: usize,
    /// Count of doc-comment lines.
    pub rustdoc_lines: usize,
    /// Count of code lines.
    pub code_lines: usize,
}

impl View for LineStats {
    type V = LineTally;

    open spec fn view(&self) -> LineTally {
        LineTally {
            all: self.all_lines as int,
            blank: self.blank_lines as int,
            comment: self.comment_lines as int,
            rustdoc: self.rustdoc_lines as int,
            code: self.code_lines as int,
        }
    }
}

impl Default for LineStats {
    /// The all-zero line count.
    fn default() -> (r: Self)
        ensures
            r@ == tally_zero(),
    {
        LineStats { all_lines: 0, blank_lines: 0, comment_lines: 0, rustdoc_lines: 0, code_lines: 0 }
    }
}

impl LineStats {
    /// Adds another count into this one, component-wise.
    pub fn add(&mut self, other: &LineStats)
        requires
            tally_fits(tally_add(old(self)@, other@)),
        ensures
            final(self)@ == tally_add(old(self)@, other@),
    {
        self.all_lines = self.all_lines + other.all_lines;
        self.blank_lines = self.blank_lines + other.blank_lines;
        self.comment_lines = self.comment_lines + other.comment_lines;
        self.rustdoc_lines = self.rustdoc_lines + other.rustdoc_lines;
        self.code_lines = self.code_lines + other.code_lines;
    }
}

/// The sum of two consistent tallies is consistent.
pub proof fn lemma_tally_add_wf(a: LineTally, b: LineTally)
    requires
        tally_wf(a),
        tally_wf(b),
    ensures
        tally_wf(tally_add(a, b)),
{
}

/// Tally addition is commutative.
pub proof fn lemma_tally_add_comm(a: LineTally, b: LineTally)
    ensures
        tally_add(a, b) == tally_add(b, a),
{
}

/// Tally addition is associative.
pub proof fn lemma_tally_add_assoc(a: LineTally, b: LineTally, c: LineTally)
    ensures
        tally_add(tally_add(a, b), c) == tally_add(a, tally_add(b, c)),
{
}

/// The zero tally is the identity of tally addition.
pub proof fn lemma_tally_add_zero(a: LineTally)
    ensures
        tally_add(a, tally_zero()) == a,
        tally_add(tally_zero(), a) == a,
{
}

// ---------------------------------------------------------------------
// Per-file records
// ---------------------------------------------------------------------

/// Mathematical model of a `FileStats` value.
pub struct FileModel {
    pub path: Seq<char>,
    pub total: LineTally,
    pub production: LineTally,
    pub test: LineTally,
}

/// A file record is consistent when each scope's tally partitions its
/// lines and the file's total is the production and test parts added.
pub open spec fn file_wf(f: FileModel) -> bool {
    &&& tally_wf(f.total)
    &&& tally_wf(f.production)
    &&& tally_wf(f.test)
    &&& f.total == tally_add(f.production, f.test)
}

/// The analysis of one file: its path and its line counts, as a
/// whole and split into production and test code.
#[derive(Debug)]
pub struct FileStats {
    /// The path of the analyzed file.
    pub path: String,
    /// Counts over every line of the file.
    pub total: LineStats,
    /// Counts over the production lines.
    pub production: LineStats,
    /// Counts over the test lines.
    pub test: LineStats,
}

impl View for FileStats {
    type V = FileModel;

    open spec fn view(&self) -> FileModel {
        FileModel {
            path: self.path@,
            total: self.total@,
            production: self.production@,
            test: self.test@,
        }
    }
}

impl Clone for FileStats {
    /// Clones the record, keeping its value.
    fn clone(&self) -> (r: Self)
        ensures
            r@ == self@,
    {
        FileStats {
            path: self.path.clone(),
            total: self.total,
            production: self.production,
            test: self.test,
        }
    }
}

impl PartialEq for FileStats {
    fn eq(&self, other: &Self) -> (r: bool) {
        self.path == other.path && self.total == other.total && self.production == other.production
            && self.test == other.test
    }
}

impl vstd::std_specs::cmp::PartialEqSpecImpl for FileStats {
    open spec fn obeys_eq_spec() -> bool {
        true
    }

    open spec fn eq_spec(&self, other: &FileStats) -> bool {
        self@ == other@
    }
}

impl Eq for FileStats {

}

// ---------------------------------------------------------------------
// The running summary
// ---------------------------------------------------------------------

/// Mathematical model of a `Summary` value.
pub struct SummaryModel {
    pub files: int,
    pub total: LineTally,
    pub production: LineTally,
    pub test: LineTally,
}

/// The summary of no files at all.
pub open spec fn summary_zero() -> SummaryModel {
    SummaryModel {
        files: 0,
        total: tally_zero(),
        production: tally_zero(),
        test: tally_zero(),
    }
}

/// A summary with one more file folded in.
pub open spec fn summary_add(s: SummaryModel, f: FileModel) -> SummaryModel {
    SummaryModel {
        files: s.files + 1,
        total: tally_add(s.total, f.total),
        production: tally_add(s.production, f.production),
        test: tally_add(s.test, f.test),
    }
}

/// Two summaries added component-wise.
pub open spec fn summary_merge(a: SummaryModel, b: SummaryModel) -> SummaryModel {
    SummaryModel {
        files: a.files + b.files,
        total: tally_add(a.total, b.total),
        production: tally_add(a.production, b.production),
        test: tally_add(a.test, b.test),
    }
}

/// The summary of a sequence of file records, folded in order.
pub open spec fn summary_of(files: Seq<FileModel>) -> SummaryModel
    decreases files.len(),
{
    if files.len() == 0 {
        summary_zero()
    } else {
        summary_add(summary_of(files.drop_last()), files.last())
    }
}

/// Whether one more file can be folded into a summary without any
/// count leaving `usize`.
pub open spec fn summary_can_add(s: SummaryModel, f: FileModel) -> bool {
    &&& s.files + 1 <= usize::MAX
    &&& tally_fits(tally_add(s.total, f.total))
    &&& tally_fits(tally_add(s.production, f.production))
    &&& tally_fits(tally_add(s.test, f.test))
}

/// Aggregate counts over a whole analysis: how many files went in,
/// and their line counts added up, as a whole and split into
/// production and test code.
#[derive(Clone, Copy, Debug, PartialEq, Eq, Structural)]
pub struct Summary {
    /// Count of files folded into this summary.
    pub files: usize,
    /// Added counts over every line of every file.
    pub total: LineStats,
    /// Added counts over the production lines.
    pub production: LineStats,
    /// Added counts over the test lines.
    pub test: LineStats,
}

impl View for Summary {
    type V = SummaryModel;

    open spec fn view(&self) -> SummaryModel {
        SummaryModel {
            files: self.files as int,
            total: self.total@,
            production: self.production@,
            test: self.test@,
        }
    }
}

impl Default for Summary {
    /// The summary of no files.
    fn default() -> (r: Self)
        ensures
            r@ == summary_zero(),
    {
        Summary {
            files: 0,
            total: LineStats::default(),
            production: LineStats::default(),
            test: LineStats::default(),
        }
    }
}

/// Whether two line counts can be added without leaving `usize`.
pub fn stats_fit(a: &LineStats, b: &LineStats) -> (r: bool)
    ensures
        r == tally_fits(tally_add(a@, b@)),
{
    a.all_lines <= usize::MAX - b.all_lines && a.blank_lines <= usize::MAX - b.blank_lines
        && a.comment_lines <= usize::MAX - b.comment_lines && a.rustdoc_lines <= usize::MAX
        - b.rustdoc_lines && a.code_lines <= usize::MAX - b.code_lines
}

impl Summary {
    /// Whether a record can be folded in without overflowing a count.
    pub fn can_add_file(&self, file_stats: &FileStats) -> (r: bool)
        ensures
            r == summary_can_add(self@, file_stats@),
    {
        self.files < usize::MAX && stats_fit(&self.total, &file_stats.total) && stats_fit(
            &self.production,
            &file_stats.production,
        ) && stats_fit(&self.test, &file_stats.test)
    }

    /// Folds one file's record into the summary: one more file, and
    /// every count added into its scope.
    pub fn add_file(&mut self, file_stats: &FileStats)
        requires
            summary_can_add(old(self)@, file_stats@),
        ensures
            final(self)@ == summary_add(old(self)@, file_stats@),
    {
        self.files = self.files + 1;
        self.total.add(&file_stats.total);
        self.production.add(&file_stats.production);
        self.test.add(&file_stats.test);
    }
}

// ---------------------------------------------------------------------
// The report
// ---------------------------------------------------------------------

/// Mathematical model of a `Report` value.
pub struct ReportModel {
    pub summary: SummaryModel,
    pub files: Seq<FileModel>,
}

/// The top-level artifact of an analysis: the summary and the
/// per-file records in order.
#[derive(Debug)]
pub struct Report {
    /// Aggregate counts over all files.
    pub summary: Summary,
    /// The per-file records, in the order they were accumulated.
    pub files: Vec<FileStats>,
}

impl View for Report {
    type V = ReportModel;

    open spec fn view(&self) -> ReportModel {
        ReportModel { summary: self.summary@, files: self.files@.map_values(|f: FileStats| f@) }
    }
}

impl Clone for Report {
    /// Clones the report, keeping its value.
    fn clone(&self) -> (r: Self)
        ensures
            r@ == self@,
    {
        let mut files: Vec<FileStats> = Vec::new();
        let mut i: usize = 0;
        while i < self.files.len()
            invariant
                0 <= i <= self.files@.len(),
                files@.len() == i,
                forall|k: int| 0 <= k < i ==> (#[trigger] files@[k])@ == self.files@[k]@,
            decreases self.files@.len() - i,
        {
            files.push(self.files[i].clone());
            i = i + 1;
        }
        let r = Report { summary: self.summary, files };
        proof {
            assert(r@.files =~= self@.files);
        }
        r
    }
}

impl PartialEq for Report {
    fn eq(&self, other: &Self) -> (r: bool) {
        if !(self.summary == other.summary) {
            return false;
        }
        if self.files.len() != other.files.len() {
            proof {
                assert(self@.files.len() != other@.files.len());
            }
            return false;
        }
        let mut i: usize = 0;
        while i < self.files.len()
            invariant
                0 <= i <= self.files@.len(),
                self.files@.len() == other.files@.len(),
                forall|k: int| 0 <= k < i ==> (#[trigger] self.files@[k])@ == other.files@[k]@,
        decreases self.files@.len() - i,
        {
            if !(self.files[i] == other.files[i]) {
                proof {
                    assert(self@.files[i as int] != other@.files[i as int]);
                }
                return false;
            }
            i = i + 1;
        }
        proof {
            assert(self@.files =~= other@.files);
        }
        true
    }
}

impl vstd::std_specs::cmp::PartialEqSpecImpl for Report {
    open spec fn obeys_eq_spec() -> bool {
        true
    }

    open spec fn eq_spec(&self, other: &Report) -> bool {
        self@ == other@
    }
}

impl Eq for Report {

}

// ---------------------------------------------------------------------
// Laws of the summary fold
// ---------------------------------------------------------------------

/// Folding records into a summary is associative: a sequence split
/// anywhere folds to the merge of its parts' summaries.
pub proof fn lemma_summary_of_concat(s1: Seq<FileModel>, s2: Seq<FileModel>)
    ensures
        summary_of(s1 + s2) == summary_merge(summary_of(s1), summary_of(s2)),
    decreases s2.len(),
{
    if s2.len() == 0 {
        assert(s1 + s2 =~= s1);
    } else {
        lemma_summary_of_concat(s1, s2.drop_last());
        assert((s1 + s2).drop_last() =~= s1 + s2.drop_last());
        assert((s1 + s2).last() == s2.last());
    }
}

/// Removing one record from anywhere in the sequence and folding it
/// in last yields the same summary.
proof fn lemma_summary_of_remove(s: Seq<FileModel>, i: int)
    requires
        0 <= i < s.len(),
    ensures
        summary_of(s) == summary_add(summary_of(s.remove(i)), s[i]),
    decreases s.len(),
{
    if i == s.len() - 1 {
        assert(s.remove(i) =~= s.drop_last());
    } else {
        lemma_summary_of_remove(s.drop_last(), i);
        assert(s.remove(i).drop_last() =~= s.drop_last().remove(i));
        assert(s.remove(i).last() == s.last());
    }
}

/// Folding records into a summary is order-independent: two sequences
/// holding the same records fold to the same summary.
pub proof fn lemma_summary_of_permutation(s1: Seq<FileModel>, s2: Seq<FileModel>)
    requires
        s1.to_multiset() == s2.to_multiset(),
    ensures
        summary_of(s1) == summary_of(s2),
    decreases s1.len(),
{
    broadcast use vstd::seq_lib::group_to_multiset_ensures;

    if s1.len() == 0 {
        assert(s2.to_multiset().len() == 0);
        assert(s2.len() == 0);
    } else {
        let a = s1.last();
        assert(s1 =~= s1.drop_last().push(a));
        assert(s1.to_multiset() == s1.drop_last().to_multiset().insert(a));
        assert(s2.to_multiset().count(a) > 0);
        assert(s2.contains(a));
        let j = choose|j: int| 0 <= j < s2.len() && s2[j] == a;
        assert(s2.remove(j).to_multiset() =~= s2.to_multiset().remove(a));
        assert(s1.drop_last().to_multiset() =~= s1.to_multiset().remove(a));
        lemma_summary_of_permutation(s1.drop_last(), s2.remove(j));
        lemma_summary_of_remove(s2, j);
    }
}

} // verus!
