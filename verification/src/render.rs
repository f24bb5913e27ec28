//! Rendering: the indented human-readable text report, the
//! machine-readable report encoding, and the per-line markers of the
//! annotated listing.  Everything here builds strings; printing them
//! is the caller's business.

use vstd::prelude::*;
use crate::accum::StatsAccumulator;
use crate::codec::{
    append_line_stats, dec_file_stats_at, dec_line_stats, decode_file_stats_at, decode_line_stats,
    eat_lit, enc_file_stats, enc_line_stats, encode_file_stats, file_in_range,
    lemma_char_of_match, lemma_dec_file_stats_at_round, lemma_dec_line_stats_at, lemma_p_num_at,
    lemma_split_match, p_lit, p_num, scan_number, tally_in_range,
};
use crate::stats::{summary_of, FileModel, FileStats, LineStats, LineTally, LineType, Report, Summary, SummaryModel};
use crate::strutil::{dec_str, usize_to_string};

verus! {

/// `n` spaces.
pub open spec fn spaces(n: int) -> Seq<char>
    decreases n,
{
    if n <= 0 {
        Seq::empty()
    } else {
        spaces(n - 1).push(' ')
    }
}

/// One scope's counts as five indented text lines, the last without a
/// newline.
pub open spec fn fmt_line_stats_spec(t: LineTally, indent: int) -> Seq<char> {
    spaces(indent) + "All lines: "@ + dec_str(t.all) + "\n"@ + spaces(indent) + "Blank lines: "@
        + dec_str(t.blank) + "\n"@ + spaces(indent) + "Comment lines: "@ + dec_str(t.comment)
        + "\n"@ + spaces(indent) + "Rustdoc lines: "@ + dec_str(t.rustdoc) + "\n"@ + spaces(indent)
        + "Code lines: "@ + dec_str(t.code)
}

/// Builds `n` spaces.
fn make_indent(n: usize) -> (r: String)
    ensures
        r@ == spaces(n as int),
{
    let mut s = String::new();
    let mut i: usize = 0;
    while i < n
        invariant
            0 <= i <= n,
            s@ == spaces(i as int),
        decreases n - i,
    {
        s.append(" ");
        proof {
            reveal_strlit(" ");
            assert(s@ =~= spaces(i as int).push(' '));
        }
        i = i + 1;
    }
    s
}

/// Formats one scope's counts, each on its own line, indented.
pub fn format_line_stats(stats: &LineStats, indent: usize) -> (r: String)
    ensures
        r@ == fmt_line_stats_spec(stats@, indent as int),
{
    let prefix = make_indent(indent);
    let mut out = String::new();
    out.append(prefix.as_str());
    out.append("All lines: ");
    let a = usize_to_string(stats.all_lines);
    out.append(a.as_str());
    out.append("\n");
    out.append(prefix.as_str());
    out.append("Blank lines: ");
    let b = usize_to_string(stats.blank_lines);
    out.append(b.as_str());
    out.append("\n");
    out.append(prefix.as_str());
    out.append("Comment lines: ");
    let c = usize_to_string(stats.comment_lines);
    out.append(c.as_str());
    out.append("\n");
    out.append(prefix.as_str());
    out.append("Rustdoc lines: ");
    let d = usize_to_string(stats.rustdoc_lines);
    out.append(d.as_str());
    out.append("\n");
    out.append(prefix.as_str());
    out.append("Code lines: ");
    let e = usize_to_string(stats.code_lines);
    out.append(e.as_str());
    proof {
        assert(out@ =~= fmt_line_stats_spec(stats@, indent as int));
    }
    out
}

// ---------------------------------------------------------------------
// The annotated listing's markers
// ---------------------------------------------------------------------

/// The three-letter marker of one line in the annotated listing:
/// production or test, then the category.
pub open spec fn debug_marker_spec(line_type: LineType, is_test: bool) -> Seq<char> {
    if is_test {
        match line_type {
            LineType::Blank => "TBL"@,
            LineType::Comment => "TCM"@,
            LineType::Rustdoc => "TDC"@,
            LineType::Code => "TCO"@,
        }
    } else {
        match line_type {
            LineType::Blank => "PBL"@,
            LineType::Comment => "PCM"@,
            LineType::Rustdoc => "PDC"@,
            LineType::Code => "PCO"@,
        }
    }
}

/// The marker of one line in the annotated listing.
pub fn debug_marker(line_type: LineType, is_test: bool) -> (r: &'static str)
    ensures
        r@ == debug_marker_spec(line_type, is_test),
{
    if is_test {
        match line_type {
            LineType::Blank => "TBL",
            LineType::Comment => "TCM",
            LineType::Rustdoc => "TDC",
            LineType::Code => "TCO",
        }
    } else {
        match line_type {
            LineType::Blank => "PBL",
            LineType::Comment => "PCM",
            LineType::Rustdoc => "PDC",
            LineType::Code => "PCO",
        }
    }
}

/// One line of the annotated listing: its marker, two spaces, the
/// line itself.
pub fn format_debug_line(line: &str, line_type: LineType, is_test: bool) -> (r: String)
    ensures
        r@ == debug_marker_spec(line_type, is_test) + "  "@ + line@,
{
    let mut out = String::new();
    out.append(debug_marker(line_type, is_test));
    out.append("  ");
    out.append(line);
    out
}

// ---------------------------------------------------------------------
// The text report
// ---------------------------------------------------------------------

/// One file's block of the text report.
pub open spec fn text_file_block_spec(f: FileModel) -> Seq<char> {
    "  "@ + f.path + ":\n"@ + "    Total:\n"@ + fmt_line_stats_spec(f.total, 6) + "\n"@
        + "    Production:\n"@ + fmt_line_stats_spec(f.production, 6) + "\n"@ + "    Test:\n"@
        + fmt_line_stats_spec(f.test, 6) + "\n"@
}

/// The file blocks of the text report, in order.
pub open spec fn text_file_blocks_spec(files: Seq<FileModel>) -> Seq<char>
    decreases files.len(),
{
    if files.len() == 0 {
        Seq::empty()
    } else {
        text_file_blocks_spec(files.drop_last()) + text_file_block_spec(files.last())
    }
}

/// The whole text report: the summary, then one block per file.
pub open spec fn text_report_spec(s: SummaryModel, files: Seq<FileModel>) -> Seq<char> {
    "Summary:\n"@ + "  Files: "@ + dec_str(s.files) + "\n"@ + "  Total:\n"@ + fmt_line_stats_spec(
        s.total,
        4,
    ) + "\n"@ + "  Production:\n"@ + fmt_line_stats_spec(s.production, 4) + "\n"@ + "  Test:\n"@
        + fmt_line_stats_spec(s.test, 4) + "\n"@ + "\nFiles:\n"@ + text_file_blocks_spec(files)
}

/// Appends one file's block of the text report.
fn append_file_block(out: &mut String, fs: &FileStats)
    ensures
        final(out)@ == old(out)@ + text_file_block_spec(fs@),
{
    out.append("  ");
    out.append(fs.path.as_str());
    out.append(":\n");
    out.append("    Total:\n");
    let t = format_line_stats(&fs.total, 6);
    out.append(t.as_str());
    out.append("\n");
    out.append("    Production:\n");
    let p = format_line_stats(&fs.production, 6);
    out.append(p.as_str());
    out.append("\n");
    out.append("    Test:\n");
    let q = format_line_stats(&fs.test, 6);
    out.append(q.as_str());
    out.append("\n");
    proof {
        assert(out@ =~= old(out)@ + text_file_block_spec(fs@));
    }
}

/// Renders the accumulated statistics as the indented text report:
/// the summary first, then one block per file, in insertion order.
#[verifier::rlimit(100)]
#[verifier::spinoff_prover]
pub fn render_text_report<A: StatsAccumulator>(accumulator: &A) -> (r: Result<String, String>)
    requires
        accumulator.wf(),
    ensures
        match r {
            Ok(out) => accumulator.iter_ready() ==> out@ == text_report_spec(
                summary_of(accumulator.records()),
                accumulator.records(),
            ),
            Err(_) => true,
        },
{
    let summary = accumulator.get_summary();
    let files = match accumulator.iter_files() {
        Ok(v) => v,
        Err(e) => {
            return Err(e);
        },
    };
    let mut out = String::new();
    out.append("Summary:\n");
    out.append("  Files: ");
    let n = usize_to_string(summary.files);
    out.append(n.as_str());
    out.append("\n");
    out.append("  Total:\n");
    let t = format_line_stats(&summary.total, 4);
    out.append(t.as_str());
    out.append("\n");
    out.append("  Production:\n");
    let p = format_line_stats(&summary.production, 4);
    out.append(p.as_str());
    out.append("\n");
    out.append("  Test:\n");
    let q = format_line_stats(&summary.test, 4);
    out.append(q.as_str());
    out.append("\n");
    out.append("\nFiles:\n");
    let ghost header = out@;
    let ghost recs = accumulator.records();
    let mut i: usize = 0;
    while i < files.len()
        invariant
            0 <= i <= files@.len(),
            accumulator.iter_ready() ==> {
                &&& files@.map_values(|f: FileStats| f@) == recs
                &&& files@.len() == recs.len()
                &&& out@ == header + text_file_blocks_spec(recs.take(i as int))
            },
        decreases files@.len() - i,
    {
        proof {
            if accumulator.iter_ready() {
                assert(files@.map_values(|f: FileStats| f@)[i as int] == files@[i as int]@);
            }
        }
        append_file_block(&mut out, &files[i]);
        proof {
            if accumulator.iter_ready() {
                assert(recs.take(i as int + 1).drop_last() =~= recs.take(i as int));
                assert(recs.take(i as int + 1).last() == recs[i as int]);
                assert(out@ =~= header + text_file_blocks_spec(recs.take(i as int + 1)));
            }
        }
        i = i + 1;
    }
    proof {
        if accumulator.iter_ready() {
            assert(recs.take(recs.len() as int) =~= recs);
            assert(out@ =~= text_report_spec(summary_of(recs), recs));
        }
    }
    Ok(out)
}

// ---------------------------------------------------------------------
// The machine-readable report
// ---------------------------------------------------------------------

/// The encoding of the summary.
pub open spec fn enc_summary(s: SummaryModel) -> Seq<char> {
    "{\"files\":"@ + dec_str(s.files) + ",\"total\":"@ + enc_line_stats(s.total)
        + ",\"production\":"@ + enc_line_stats(s.production) + ",\"test\":"@ + enc_line_stats(
        s.test,
    ) + "}"@
}

/// The encoded file records, separated by commas.
pub open spec fn enc_file_list(files: Seq<FileModel>) -> Seq<char>
    decreases files.len(),
{
    if files.len() == 0 {
        Seq::empty()
    } else if files.len() == 1 {
        enc_file_stats(files[0])
    } else {
        enc_file_list(files.drop_last()) + ","@ + enc_file_stats(files.last())
    }
}

/// The encoding of a whole report: the summary, then the records.
pub open spec fn enc_report(s: SummaryModel, files: Seq<FileModel>) -> Seq<char> {
    "{\"summary\":"@ + enc_summary(s) + ",\"files\":["@ + enc_file_list(files) + "]"@ + "}"@
}

/// Renders the accumulated statistics as the machine-readable report
/// encoding: five stably-named counts per scope, nested under the
/// summary and under each file.
#[verifier::rlimit(100)]
#[verifier::spinoff_prover]
pub fn render_json_report<A: StatsAccumulator>(accumulator: &A) -> (r: Result<String, String>)
    requires
        accumulator.wf(),
    ensures
        match r {
            Ok(out) => accumulator.iter_ready() ==> out@ == enc_report(
                summary_of(accumulator.records()),
                accumulator.records(),
            ),
            Err(_) => true,
        },
{
    let summary = accumulator.get_summary();
    let files = match accumulator.iter_files() {
        Ok(v) => v,
        Err(e) => {
            return Err(e);
        },
    };
    let mut out = String::new();
    out.append("{\"summary\":");
    out.append("{\"files\":");
    let n = usize_to_string(summary.files);
    out.append(n.as_str());
    out.append(",\"total\":");
    append_line_stats(&mut out, &summary.total);
    out.append(",\"production\":");
    append_line_stats(&mut out, &summary.production);
    out.append(",\"test\":");
    append_line_stats(&mut out, &summary.test);
    out.append("}");
    out.append(",\"files\":[");
    let ghost header = out@;
    let ghost recs = accumulator.records();
    proof {
        if accumulator.iter_ready() {
            assert(header =~= "{\"summary\":"@ + enc_summary(summary_of(recs)) + ",\"files\":["@);
        }
    }
    let mut i: usize = 0;
    while i < files.len()
        invariant
            0 <= i <= files@.len(),
            accumulator.iter_ready() ==> {
                &&& files@.map_values(|f: FileStats| f@) == recs
                &&& files@.len() == recs.len()
                &&& out@ == header + enc_file_list(recs.take(i as int))
            },
        decreases files@.len() - i,
    {
        proof {
            if accumulator.iter_ready() {
                assert(files@.map_values(|f: FileStats| f@)[i as int] == files@[i as int]@);
            }
        }
        if i > 0 {
            out.append(",");
        }
        let entry = encode_file_stats(&files[i]);
        out.append(entry.as_str());
        proof {
            if accumulator.iter_ready() {
                assert(recs.take(i as int + 1).drop_last() =~= recs.take(i as int));
                assert(recs.take(i as int + 1).last() == recs[i as int]);
                if i == 0 {
                    assert(recs.take(1int).len() == 1);
                    assert(recs.take(1int)[0] == recs[0]);
                    assert(out@ =~= header + enc_file_list(recs.take(1int)));
                } else {
                    assert(out@ =~= header + enc_file_list(recs.take(i as int + 1)));
                }
            }
        }
        i = i + 1;
    }
    out.append("]");
    out.append("}");
    proof {
        if accumulator.iter_ready() {
            assert(recs.take(recs.len() as int) =~= recs);
            assert(out@ =~= enc_report(summary_of(recs), recs));
        }
    }
    Ok(out)
}

// ---------------------------------------------------------------------
// Decoding the report
// ---------------------------------------------------------------------

/// A summary whose counts can come out of a `Summary` value.
pub open spec fn summary_in_range(s: SummaryModel) -> bool {
    &&& 0 <= s.files <= usize::MAX
    &&& tally_in_range(s.total)
    &&& tally_in_range(s.production)
    &&& tally_in_range(s.test)
}

/// Consumes an encoded summary at `pos`.
#[verifier::opaque]
pub open spec fn dec_summary(s: Seq<char>, pos: int) -> Option<(SummaryModel, int)> {
    match p_lit(s, pos, "{\"files\":"@) {
        None => None,
        Some(p1) => match p_num(s, p1) {
            None => None,
            Some((files, p2)) => match p_lit(s, p2, ",\"total\":"@) {
                None => None,
                Some(p3) => match dec_line_stats(s, p3) {
                    None => None,
                    Some((total, p4)) => match p_lit(s, p4, ",\"production\":"@) {
                        None => None,
                        Some(p5) => match dec_line_stats(s, p5) {
                            None => None,
                            Some((production, p6)) => match p_lit(s, p6, ",\"test\":"@) {
                                None => None,
                                Some(p7) => match dec_line_stats(s, p7) {
                                    None => None,
                                    Some((test, p8)) => match p_lit(s, p8, "}"@) {
                                        None => None,
                                        Some(p9) => Some(
                                            (
                                                SummaryModel { files, total, production, test },
                                                p9,
                                            ),
                                        ),
                                    },
                                },
                            },
                        },
                    },
                },
            },
        },
    }
}

/// Consumes the encoded record list at `pos`, up to and over its
/// closing bracket.
#[verifier::opaque]
pub open spec fn dec_file_list(s: Seq<char>, pos: int) -> Option<(Seq<FileModel>, int)>
    decreases s.len() - pos,
{
    match p_lit(s, pos, "]"@) {
        Some(np) => Some((Seq::empty(), np)),
        None => match dec_file_stats_at(s, pos) {
            None => None,
            Some((f, p1)) => if p1 <= pos {
                None
            } else {
                match p_lit(s, p1, "]"@) {
                    Some(np) => Some((seq![f], np)),
                    None => match p_lit(s, p1, ","@) {
                        None => None,
                        Some(p2) => match dec_file_list(s, p2) {
                            None => None,
                            Some((rest, np)) => Some((seq![f] + rest, np)),
                        },
                    },
                }
            },
        },
    }
}

/// What a whole report decodes to: a summary and the records, filling
/// the text exactly, or nothing.
pub open spec fn dec_report(s: Seq<char>) -> Option<(SummaryModel, Seq<FileModel>)> {
    match p_lit(s, 0, "{\"summary\":"@) {
        None => None,
        Some(p1) => match dec_summary(s, p1) {
            None => None,
            Some((sm, p2)) => match p_lit(s, p2, ",\"files\":["@) {
                None => None,
                Some(p3) => match dec_file_list(s, p3) {
                    None => None,
                    Some((files, p4)) => match p_lit(s, p4, "}"@) {
                        None => None,
                        Some(p5) => if p5 == s.len() {
                            Some((sm, files))
                        } else {
                            None
                        },
                    },
                },
            },
        },
    }
}

/// Decodes an encoded summary at `pos`.
fn decode_summary(s: &str, pos: usize) -> (r: Option<(Summary, usize)>)
    ensures
        match r {
            Some(v) => dec_summary(s@, pos as int) == Some((v.0@, v.1 as int)),
            None => dec_summary(s@, pos as int) is None,
        },
{
    proof {
        reveal(dec_summary);
    }
    let p1 = match eat_lit(s, pos, "{\"files\":") {
        Some(p) => p,
        None => {
            return None;
        },
    };
    let (files, p2) = match scan_number(s, p1) {
        Some(v) => v,
        None => {
            return None;
        },
    };
    let p3 = match eat_lit(s, p2, ",\"total\":") {
        Some(p) => p,
        None => {
            return None;
        },
    };
    let (total, p4) = match decode_line_stats(s, p3) {
        Some(v) => v,
        None => {
            return None;
        },
    };
    let p5 = match eat_lit(s, p4, ",\"production\":") {
        Some(p) => p,
        None => {
            return None;
        },
    };
    let (production, p6) = match decode_line_stats(s, p5) {
        Some(v) => v,
        None => {
            return None;
        },
    };
    let p7 = match eat_lit(s, p6, ",\"test\":") {
        Some(p) => p,
        None => {
            return None;
        },
    };
    let (test, p8) = match decode_line_stats(s, p7) {
        Some(v) => v,
        None => {
            return None;
        },
    };
    let p9 = match eat_lit(s, p8, "}") {
        Some(p) => p,
        None => {
            return None;
        },
    };
    Some((Summary { files, total, production, test }, p9))
}

/// How reading the record list composes: what was read so far stands
/// in front of whatever the rest of the list yields.
pub open spec fn list_prepend(a: Seq<FileModel>, o: Option<(Seq<FileModel>, int)>) -> Option<
    (Seq<FileModel>, int),
> {
    match o {
        Some(r) => Some((a + r.0, r.1)),
        None => None,
    }
}

/// Decodes the record list at `pos`, up to and over its closing
/// bracket.
fn decode_file_list(s: &str, pos: usize) -> (r: Option<(Vec<FileStats>, usize)>)
    ensures
        match r {
            Some(v) => dec_file_list(s@, pos as int) == Some(
                (v.0@.map_values(|f: FileStats| f@), v.1 as int),
            ),
            None => dec_file_list(s@, pos as int) is None,
        },
{
    let mut files: Vec<FileStats> = Vec::new();
    let mut cur: usize = pos;
    proof {
        assert(files@.map_values(|f: FileStats| f@) =~= Seq::<FileModel>::empty());
        match dec_file_list(s@, pos as int) {
            Some(r) => {
                assert(Seq::<FileModel>::empty() + r.0 =~= r.0);
            },
            None => {
            },
        }
    }
    loop
        invariant
            pos <= cur,
            dec_file_list(s@, pos as int) == list_prepend(
                files@.map_values(|f: FileStats| f@),
                dec_file_list(s@, cur as int),
            ),
        decreases s@.len() + 1 - cur,
    {
        proof {
            reveal(dec_file_list);
        }
        let ghost acc0 = files@.map_values(|f: FileStats| f@);
        if let Some(np) = eat_lit(s, cur, "]") {
            proof {
                assert(acc0 + Seq::<FileModel>::empty() =~= acc0);
            }
            return Some((files, np));
        }
        let (fs, p1) = match decode_file_stats_at(s, cur) {
            Some(v) => v,
            None => {
                return None;
            },
        };
        if p1 <= cur {
            return None;
        }
        if let Some(np) = eat_lit(s, p1, "]") {
            proof {
                assert(acc0 + seq![fs@] =~= acc0.push(fs@));
            }
            files.push(fs);
            proof {
                assert(files@.map_values(|f: FileStats| f@) =~= acc0.push(fs@));
            }
            return Some((files, np));
        }
        let p2 = match eat_lit(s, p1, ",") {
            Some(p) => p,
            None => {
                return None;
            },
        };
        proof {
            match dec_file_list(s@, p2 as int) {
                Some(r) => {
                    assert(acc0 + (seq![fs@] + r.0) =~= acc0.push(fs@) + r.0);
                },
                None => {
                },
            }
        }
        files.push(fs);
        proof {
            assert(files@.map_values(|f: FileStats| f@) =~= acc0.push(fs@));
        }
        cur = p2;
    }
}

/// Decodes a whole encoded report, refusing any text that is not
/// exactly one report.
pub fn decode_report(text: &str) -> (r: Option<Report>)
    ensures
        match r {
            Some(rep) => dec_report(text@) == Some((rep.summary@, rep@.files)),
            None => dec_report(text@) is None,
        },
{
    let p1 = match eat_lit(text, 0, "{\"summary\":") {
        Some(p) => p,
        None => {
            return None;
        },
    };
    let (summary, p2) = match decode_summary(text, p1) {
        Some(v) => v,
        None => {
            return None;
        },
    };
    let p3 = match eat_lit(text, p2, ",\"files\":[") {
        Some(p) => p,
        None => {
            return None;
        },
    };
    let (files, p4) = match decode_file_list(text, p3) {
        Some(v) => v,
        None => {
            return None;
        },
    };
    let p5 = match eat_lit(text, p4, "}") {
        Some(p) => p,
        None => {
            return None;
        },
    };
    if p5 != text.unicode_len() {
        return None;
    }
    Some(Report { summary, files })
}

// ---------------------------------------------------------------------
// Decoding inverts encoding for the whole report
// ---------------------------------------------------------------------

#[verifier::rlimit(100)]
#[verifier::spinoff_prover]
proof fn lemma_dec_summary_at(s: Seq<char>, pos: int, sm: SummaryModel)
    requires
        summary_in_range(sm),
        0 <= pos,
        pos + enc_summary(sm).len() <= s.len(),
        s.subrange(pos, pos + enc_summary(sm).len()) == enc_summary(sm),
    ensures
        dec_summary(s, pos) == Some((sm, pos + enc_summary(sm).len())),
{
    reveal(dec_summary);
    let e = enc_summary(sm);
    let m1 = "{\"files\":"@;
    let m2 = ",\"total\":"@;
    let m3 = ",\"production\":"@;
    let m4 = ",\"test\":"@;
    let rb = "}"@;
    reveal_strlit("{\"files\":");
    reveal_strlit(",\"total\":");
    reveal_strlit(",\"production\":");
    reveal_strlit(",\"test\":");
    reveal_strlit("}");
    let d = dec_str(sm.files);
    let e1 = enc_line_stats(sm.total);
    let e2 = enc_line_stats(sm.production);
    let e3 = enc_line_stats(sm.test);
    let o1 = pos + m1.len();
    let o2 = o1 + d.len();
    let o3 = o2 + m2.len();
    let o4 = o3 + e1.len();
    let o5 = o4 + m3.len();
    let o6 = o5 + e2.len();
    let o7 = o6 + m4.len();
    let o8 = o7 + e3.len();
    let o9 = o8 + rb.len();
    let a1 = m1 + d;
    let a2 = a1 + m2;
    let a3 = a2 + e1;
    let a4 = a3 + m3;
    let a5 = a4 + e2;
    let a6 = a5 + m4;
    let a7 = a6 + e3;
    assert(e == a7 + rb);
    assert(pos + e.len() == o9);
    lemma_split_match(s, pos, a7, rb);
    lemma_split_match(s, pos, a6, e3);
    lemma_split_match(s, pos, a5, m4);
    lemma_split_match(s, pos, a4, e2);
    lemma_split_match(s, pos, a3, m3);
    lemma_split_match(s, pos, a2, e1);
    lemma_split_match(s, pos, a1, m2);
    lemma_split_match(s, pos, m1, d);
    lemma_char_of_match(s, o2, m2, 0);
    assert(p_lit(s, pos, m1) == Some(o1));
    lemma_p_num_at(s, o1, sm.files);
    assert(p_lit(s, o2, m2) == Some(o3));
    lemma_dec_line_stats_at(s, o3, sm.total);
    assert(p_lit(s, o4, m3) == Some(o5));
    lemma_dec_line_stats_at(s, o5, sm.production);
    assert(p_lit(s, o6, m4) == Some(o7));
    lemma_dec_line_stats_at(s, o7, sm.test);
    assert(p_lit(s, o8, rb) == Some(o9));
}

/// Peeling the first record off a non-empty encoded list.
#[verifier::rlimit(100)]
#[verifier::spinoff_prover]
proof fn lemma_enc_file_list_front(files: Seq<FileModel>)
    requires
        files.len() >= 1,
    ensures
        files.len() == 1 ==> enc_file_list(files) == enc_file_stats(files[0]),
        files.len() >= 2 ==> enc_file_list(files) == (enc_file_stats(files[0]) + ","@)
            + enc_file_list(files.drop_first()),
    decreases files.len(),
{
    reveal_with_fuel(enc_file_list, 3);
    if files.len() == 1 {
        assert(enc_file_list(files) == enc_file_stats(files[0]));
    } else if files.len() == 2 {
        assert(files.drop_last().len() == 1);
        assert(files.drop_last()[0] == files[0]);
        assert(files.drop_first().len() == 1);
        assert(files.drop_first()[0] == files[1]);
        assert(files.last() == files[1]);
        assert(enc_file_list(files) == enc_file_stats(files[0]) + ","@ + enc_file_stats(files[1]));
        assert(enc_file_stats(files[0]) + ","@ + enc_file_stats(files[1]) =~= (enc_file_stats(
            files[0],
        ) + ","@) + enc_file_list(files.drop_first()));
    } else {
        lemma_enc_file_list_front(files.drop_last());
        assert(files.drop_last()[0] == files[0]);
        assert(files.drop_last().drop_first() =~= files.drop_first().drop_last());
        assert(files.drop_first().last() == files.last());
        assert(enc_file_list(files) == enc_file_list(files.drop_last()) + ","@ + enc_file_stats(
            files.last(),
        ));
        assert(enc_file_list(files.drop_last()) == (enc_file_stats(files[0]) + ","@)
            + enc_file_list(files.drop_last().drop_first()));
        assert(enc_file_list(files.drop_first()) == enc_file_list(files.drop_first().drop_last())
            + ","@ + enc_file_stats(files.drop_first().last()));
        assert(((enc_file_stats(files[0]) + ","@) + enc_file_list(files.drop_first().drop_last())
            + ","@ + enc_file_stats(files.last())) =~= (enc_file_stats(files[0]) + ","@)
            + enc_file_list(files.drop_first()));
    }
}

/// The first character of an encoded record is the opening brace.
proof fn lemma_enc_file_stats_first(f: FileModel)
    ensures
        enc_file_stats(f).len() >= 1,
        enc_file_stats(f)[0] == '{',
{
    reveal(enc_file_stats);
    reveal_strlit("{\"path\":\"");
    assert(enc_file_stats(f)[0] == "{\"path\":\""@[0]);
}

#[verifier::rlimit(100)]
#[verifier::spinoff_prover]
proof fn lemma_dec_file_list_at(s: Seq<char>, pos: int, files: Seq<FileModel>)
    requires
        forall|i: int| 0 <= i < files.len() ==> file_in_range(#[trigger] files[i]),
        0 <= pos,
        pos + enc_file_list(files).len() + 1 <= s.len(),
        s.subrange(pos, pos + enc_file_list(files).len()) == enc_file_list(files),
        s[pos + enc_file_list(files).len()] == ']',
    ensures
        dec_file_list(s, pos) == Some((files, pos + enc_file_list(files).len() + 1)),
    decreases files.len(),
{
    reveal(dec_file_list);
    reveal_strlit("]");
    reveal_strlit(",");
    let el = enc_file_list(files);
    if files.len() == 0 {
        assert(el.len() == 0);
        assert(s.subrange(pos, pos + 1) =~= "]"@) by {
            assert(s.subrange(pos, pos + 1)[0] == s[pos]);
        }
        assert(p_lit(s, pos, "]"@) == Some(pos + 1));
        assert(files =~= Seq::<FileModel>::empty());
    } else {
        lemma_enc_file_list_front(files);
        lemma_enc_file_stats_first(files[0]);
        let e0 = enc_file_stats(files[0]);
        // the list does not open with a bracket, so the empty case is
        // off the table
        assert(s.subrange(pos, pos + el.len())[0] == s[pos]);
        assert(el[0] == e0[0]);
        assert(s[pos] == '{');
        assert(p_lit(s, pos, "]"@) is None) by {
            if p_lit(s, pos, "]"@) is Some {
                assert(s.subrange(pos, pos + 1)[0] == s[pos]);
            }
        }
        if files.len() == 1 {
            assert(el == e0);
            lemma_dec_file_stats_at_round(s, pos, files[0]);
            let p1 = pos + e0.len();
            assert(s.subrange(p1, p1 + 1) =~= "]"@) by {
                assert(s.subrange(p1, p1 + 1)[0] == s[p1]);
            }
            assert(p_lit(s, p1, "]"@) == Some(p1 + 1));
            assert(seq![files[0]] =~= files);
        } else {
            assert(el == (e0 + ","@) + enc_file_list(files.drop_first()));
            let rest = enc_file_list(files.drop_first());
            lemma_split_match(s, pos, e0 + ","@, rest);
            lemma_split_match(s, pos, e0, ","@);
            lemma_dec_file_stats_at_round(s, pos, files[0]);
            let p1 = pos + e0.len();
            lemma_char_of_match(s, p1, ","@, 0);
            assert(s[p1] == ',');
            assert(p_lit(s, p1, "]"@) is None) by {
                if p_lit(s, p1, "]"@) is Some {
                    assert(s.subrange(p1, p1 + 1)[0] == s[p1]);
                }
            }
            assert(p_lit(s, p1, ","@) == Some(p1 + 1));
            let p2 = p1 + 1;
            assert(forall|i: int|
                0 <= i < files.drop_first().len() ==> file_in_range(
                    #[trigger] files.drop_first()[i],
                ));
            assert(p2 + rest.len() == pos + el.len());
            lemma_dec_file_list_at(s, p2, files.drop_first());
            assert(seq![files[0]] + files.drop_first() =~= files);
        }
    }
}

/// Decoding inverts encoding for a whole report: what the renderer
/// writes for a summary and its records reads back as exactly that
/// summary and those records.
#[verifier::rlimit(100)]
#[verifier::spinoff_prover]
pub proof fn lemma_report_round_trip(sm: SummaryModel, files: Seq<FileModel>)
    requires
        summary_in_range(sm),
        forall|i: int| 0 <= i < files.len() ==> file_in_range(#[trigger] files[i]),
    ensures
        dec_report(enc_report(sm, files)) == Some((sm, files)),
{
    let s = enc_report(sm, files);
    let h1 = "{\"summary\":"@;
    let h2 = ",\"files\":["@;
    let br = "]"@;
    let rb = "}"@;
    reveal_strlit("{\"summary\":");
    reveal_strlit(",\"files\":[");
    reveal_strlit("]");
    reveal_strlit("}");
    let es = enc_summary(sm);
    let el = enc_file_list(files);
    let o1 = h1.len() as int;
    let o2 = o1 + es.len();
    let o3 = o2 + h2.len();
    let o4 = o3 + el.len();
    let o5 = o4 + br.len();
    let o6 = o5 + rb.len();
    let a1 = h1 + es;
    let a2 = a1 + h2;
    let a3 = a2 + el;
    let a4 = a3 + br;
    assert(s == a4 + rb);
    assert(s.len() == o6);
    assert(s.subrange(0, s.len() as int) =~= s);
    lemma_split_match(s, 0, a4, rb);
    lemma_split_match(s, 0, a3, br);
    lemma_split_match(s, 0, a2, el);
    lemma_split_match(s, 0, a1, h2);
    lemma_split_match(s, 0, h1, es);
    lemma_char_of_match(s, o4, br, 0);
    assert(s[o4] == ']');
    assert(p_lit(s, 0, h1) == Some(o1));
    lemma_dec_summary_at(s, o1, sm);
    assert(p_lit(s, o2, h2) == Some(o3));
    lemma_dec_file_list_at(s, o3, files);
    assert(p_lit(s, o5, rb) == Some(o6));
}

} // verus!
