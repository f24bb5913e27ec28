//! Line-offset index and token classifier: turns a file's bytes and
//! its token list into one `LineType` per line.

use vstd::prelude::*;
use crate::stats::{LineStats, LineTally, LineType};

verus! {

/// What the classifier needs to know of a token's kind.
#[derive(Clone, Copy, Debug, PartialEq, Eq, Structural)]
pub enum TokenKind {
    /// A whitespace token: leaves lines as they are.
    Whitespace,
    /// A comment token, ordinary or doc.
    Comment,
    /// Any other token: keyword, identifier, literal, punctuation.
    Other,
}

/// One token of a parsed file: its kind, its byte range in the file,
/// and its literal text (used only to tell doc comments apart).
pub struct Token {
    pub kind: TokenKind,
    pub start: usize,
    pub end: usize,
    pub text: String,
}

// ---------------------------------------------------------------------
// Line structure of a byte sequence
// ---------------------------------------------------------------------

/// Count of newline bytes in `t`.
pub open spec fn newline_count(t: Seq<u8>) -> int
    decreases t.len(),
{
    if t.len() == 0 {
        0
    } else {
        newline_count(t.drop_last()) + if t.last() == 10 { 1int } else { 0 }
    }
}

/// Count of newline bytes strictly before byte offset `x`, with `x`
/// clamped into `[0, t.len()]`.
pub open spec fn newlines_before(t: Seq<u8>, x: int) -> int {
    newline_count(t.take(clamp_offset(t, x)))
}

/// `x` clamped into `[0, t.len()]`.
pub open spec fn clamp_offset(t: Seq<u8>, x: int) -> int {
    if x <= 0 {
        0
    } else if x >= t.len() {
        t.len() as int
    } else {
        x
    }
}

/// Number of lines of a text, counted as `str::lines` counts them:
/// an empty text has no line; otherwise each newline byte ends a
/// line, and a final fragment not ended by a newline is one more.
pub open spec fn line_count(t: Seq<u8>) -> int {
    if t.len() == 0 {
        0
    } else {
        newline_count(t) + if t.last() == 10 { 0int } else { 1 }
    }
}

/// The line on which byte offset `x` falls: the count of newlines
/// before it, clamped to the last line.
pub open spec fn line_of(t: Seq<u8>, x: int) -> int {
    let n = newlines_before(t, x);
    if n > line_count(t) - 1 {
        line_count(t) - 1
    } else {
        n
    }
}

proof fn lemma_newline_count_take_succ(t: Seq<u8>, x: int)
    requires
        0 <= x < t.len(),
    ensures
        newline_count(t.take(x + 1)) == newline_count(t.take(x)) + if t[x] == 10 { 1int } else { 0 },
{
    assert(t.take(x + 1).drop_last() =~= t.take(x));
    assert(t.take(x + 1).last() == t[x]);
}

proof fn lemma_newline_count_monotone(t: Seq<u8>, a: int, b: int)
    requires
        0 <= a <= b <= t.len(),
    ensures
        newline_count(t.take(a)) <= newline_count(t.take(b)),
    decreases b - a,
{
    if a < b {
        lemma_newline_count_monotone(t, a, b - 1);
        lemma_newline_count_take_succ(t, b - 1);
    }
}

proof fn lemma_newline_count_le(t: Seq<u8>, x: int)
    requires
        0 <= x <= t.len(),
    ensures
        0 <= newline_count(t.take(x)) <= x,
    decreases x,
{
    if x > 0 {
        lemma_newline_count_le(t, x - 1);
        lemma_newline_count_take_succ(t, x - 1);
    } else {
        assert(t.take(0) =~= Seq::<u8>::empty());
    }
}

proof fn lemma_newline_count_whole(t: Seq<u8>)
    ensures
        newline_count(t.take(t.len() as int)) == newline_count(t),
{
    assert(t.take(t.len() as int) =~= t);
}

/// `newlines_before` never exceeds the line count minus the final
/// fragment, so `line_of` stays within `[0, line_count - 1]` whenever
/// the text has a line at all.
proof fn lemma_line_of_bounds(t: Seq<u8>, x: int)
    requires
        t.len() > 0,
    ensures
        0 <= line_of(t, x) < line_count(t),
{
    let c = clamp_offset(t, x);
    lemma_newline_count_le(t, c);
    lemma_newline_count_le(t, t.len() - 1);
    lemma_newline_count_take_succ(t, t.len() - 1);
    lemma_newline_count_whole(t);
    if t.last() == 10 {
        // the final byte is a newline: every line ends in one, and the
        // count strictly before the last byte is one less
        if c < t.len() {
            lemma_newline_count_monotone(t, c, t.len() - 1);
        }
    } else {
        lemma_newline_count_monotone(t, c, t.len() as int);
    }
}

proof fn lemma_line_of_monotone(t: Seq<u8>, x: int, y: int)
    requires
        x <= y,
    ensures
        line_of(t, x) <= line_of(t, y),
{
    lemma_newline_count_monotone(t, clamp_offset(t, x), clamp_offset(t, y));
}

/// A sorted vector of the byte offsets at which lines start: offset 0,
/// then one entry just past each newline byte.
pub open spec fn is_line_start_index(t: Seq<u8>, v: Seq<int>) -> bool {
    &&& v.len() == newline_count(t) + 1
    &&& v[0] == 0
    &&& forall|j: int| 0 <= j < v.len() ==> 0 <= #[trigger] v[j] <= t.len()
    &&& forall|j: int| 0 <= j < v.len() ==> newline_count(t.take(#[trigger] v[j])) == j
    &&& forall|j: int| 1 <= j < v.len() ==> t[#[trigger] v[j] - 1] == 10
}

/// Builds the line-start index of `text`.
fn build_line_starts(text: &[u8]) -> (v: Vec<usize>)
    ensures
        is_line_start_index(text@, v@.map_values(|u: usize| u as int)),
{
    let ghost t = text@;
    let mut v: Vec<usize> = Vec::new();
    v.push(0);
    proof {
        assert(t.take(0) =~= Seq::<u8>::empty());
    }
    let mut i: usize = 0;
    while i < text.len()
        invariant
            0 <= i <= t.len(),
            t == text@,
            v@.len() >= 1,
            v@[0] == 0,
            v@.len() == newline_count(t.take(i as int)) + 1,
            forall|j: int| 0 <= j < v@.len() ==> 0 <= #[trigger] v@[j] <= i,
            forall|j: int|
                0 <= j < v@.len() ==> newline_count(t.take(#[trigger] v@[j] as int)) == j,
            forall|j: int| 1 <= j < v@.len() ==> t[#[trigger] v@[j] - 1] == 10,
        decreases t.len() - i,
    {
        proof {
            lemma_newline_count_take_succ(t, i as int);
        }
        if text[i] == 10 {
            v.push(i + 1);
        }
        i = i + 1;
    }
    proof {
        lemma_newline_count_whole(t);
        assert(v@.map_values(|u: usize| u as int).len() == v@.len());
    }
    v
}

/// Maps a byte offset to its line, by binary search over the line
/// starts: the largest line whose start is at or before the offset,
/// clamped to the last line.
fn offset_to_line(starts: &Vec<usize>, off: usize, total: usize, Ghost(t): Ghost<Seq<u8>>) -> (r:
    usize)
    requires
        is_line_start_index(t, starts@.map_values(|u: usize| u as int)),
        total == line_count(t),
        total > 0,
    ensures
        r == line_of(t, off as int),
{
    let ghost sv = starts@.map_values(|u: usize| u as int);
    // the largest index whose start is <= off, found by binary search
    let mut lo: usize = 0;
    let mut hi: usize = starts.len();
    while hi - lo > 1
        invariant
            0 <= lo < hi <= starts@.len(),
            starts@.len() == sv.len(),
            sv == starts@.map_values(|u: usize| u as int),
            is_line_start_index(t, sv),
            starts@[lo as int] <= off,
            hi < sv.len() ==> off < starts@[hi as int],
        decreases hi - lo,
    {
        let mid = lo + (hi - lo) / 2;
        if starts[mid] <= off {
            lo = mid;
        } else {
            hi = mid;
        }
    }
    // `lo` is the largest index with starts[lo] <= off: turn that into
    // the newline count before `off`
    proof {
        let x = clamp_offset(t, off as int);
        let s = sv[lo as int];
        assert(newline_count(t.take(s)) == lo as int);
        assert(s <= x) by {
            if x < s {
                // impossible: a newline would sit at s - 1 >= x >= off
                assert(s <= t.len());
                assert((off as int) < s);
                assert(x == t.len() || x == off as int);
            }
        }
        if lo as int + 1 < sv.len() {
            let s2 = sv[lo as int + 1];
            assert((off as int) < s2);
            assert(x < s2 || x == s2 - 1 + 1);
            // no newline in [s, x): any newline at p < x would put the
            // start p+1 <= x <= s2 ... show count equality directly
            assert(newline_count(t.take(s2)) == lo as int + 1);
            if x >= s2 {
                assert(x == t.len());
                assert(s2 <= t.len());
                assert((off as int) >= t.len());
                assert(false);
            }
            // x < s2: counts at x sit between counts at s and s2 - 1
            assert(t[s2 - 1] == 10);
            lemma_newline_count_take_succ(t, s2 - 1);
            lemma_newline_count_monotone(t, s, x);
            lemma_newline_count_monotone(t, x, s2 - 1);
            assert(newline_count(t.take(x)) == lo as int);
        } else {
            // last start: no newline from s on, else there would be a
            // further start
            assert(lo as int == newline_count(t) + 1 - 1);
            lemma_newline_count_monotone(t, s, x);
            lemma_newline_count_monotone(t, x, t.len() as int);
            lemma_newline_count_whole(t);
            assert(newline_count(t.take(x)) == lo as int);
        }
        lemma_line_of_bounds(t, off as int);
    }
    if lo > total - 1 {
        total - 1
    } else {
        lo
    }
}

// ---------------------------------------------------------------------
// Token classification
// ---------------------------------------------------------------------

/// A comment's literal text marks it as a doc comment when it begins
/// with one of the four doc markers.
pub open spec fn is_doc_comment(text: Seq<char>) -> bool {
    text.len() >= 3 && {
        ||| text.subrange(0, 3) == "///"@
        ||| text.subrange(0, 3) == "//!"@
        ||| text.subrange(0, 3) == "/**"@
        ||| text.subrange(0, 3) == "/*!"@
    }
}

/// First line a token touches.
pub open spec fn token_start_line(t: Seq<u8>, tok: Token) -> int {
    line_of(t, tok.start as int)
}

/// Last line a token touches (its last byte, or its start for an
/// empty range).
pub open spec fn token_end_line(t: Seq<u8>, tok: Token) -> int {
    if tok.end > tok.start {
        line_of(t, tok.end - 1)
    } else {
        line_of(t, tok.start as int)
    }
}

/// Whether a token touches the given line.
pub open spec fn token_covers(t: Seq<u8>, tok: Token, line: int) -> bool {
    token_start_line(t, tok) <= line <= token_end_line(t, tok)
}

/// The category a line receives from one token, given what the
/// earlier tokens made of it: a comment token paints every line it
/// touches, a doc comment as doc; any other non-whitespace token
/// paints the lines it touches as code, but never over a comment.
pub open spec fn classify_step(t: Seq<u8>, prev: LineType, tok: Token, line: int) -> LineType {
    match tok.kind {
        TokenKind::Whitespace => prev,
        TokenKind::Comment => if token_covers(t, tok, line) {
            if is_doc_comment(tok.text@) {
                LineType::Rustdoc
            } else {
                LineType::Comment
            }
        } else {
            prev
        },
        TokenKind::Other => if token_covers(t, tok, line) && prev != LineType::Comment && prev
            != LineType::Rustdoc {
            LineType::Code
        } else {
            prev
        },
    }
}

/// The category of a line after all tokens have been applied in
/// order, starting from blank.
pub open spec fn classify_at(t: Seq<u8>, toks: Seq<Token>, line: int) -> LineType
    decreases toks.len(),
{
    if toks.len() == 0 {
        LineType::Blank
    } else {
        classify_step(t, classify_at(t, toks.drop_last(), line), toks.last(), line)
    }
}

/// Comment always wins over code: a line touched by any comment token
/// ends up a comment or doc line, whatever else shares the line and in
/// whatever order the tokens come.
pub proof fn lemma_comment_wins(t: Seq<u8>, toks: Seq<Token>, line: int)
    requires
        exists|j: int|
            0 <= j < toks.len() && (#[trigger] toks[j]).kind == TokenKind::Comment && token_covers(
                t,
                toks[j],
                line,
            ),
    ensures
        classify_at(t, toks, line) == LineType::Comment || classify_at(t, toks, line)
            == LineType::Rustdoc,
    decreases toks.len(),
{
    let j = choose|j: int|
        0 <= j < toks.len() && (#[trigger] toks[j]).kind == TokenKind::Comment && token_covers(
            t,
            toks[j],
            line,
        );
    if j == toks.len() - 1 {
    } else {
        assert(toks.drop_last()[j] == toks[j]);
        lemma_comment_wins(t, toks.drop_last(), line);
    }
}

proof fn lemma_classify_at_step(t: Seq<u8>, toks: Seq<Token>, line: int)
    requires
        toks.len() > 0,
    ensures
        classify_at(t, toks, line) == classify_step(
            t,
            classify_at(t, toks.drop_last(), line),
            toks.last(),
            line,
        ),
{
}

/// Tells whether a comment's text begins with one of the four doc
/// markers.
fn is_doc_comment_text(text: &String) -> (r: bool)
    ensures
        r == is_doc_comment(text@),
{
    let s = text.as_str();
    if s.unicode_len() < 3 {
        proof {
            reveal_strlit("///");
            reveal_strlit("//!");
            reveal_strlit("/**");
            reveal_strlit("/*!");
        }
        return false;
    }
    let c0 = s.get_char(0);
    let c1 = s.get_char(1);
    let c2 = s.get_char(2);
    let r = c0 == '/' && ((c1 == '/' && (c2 == '/' || c2 == '!')) || (c1 == '*' && (c2 == '*' || c2
        == '!')));
    proof {
        reveal_strlit("///");
        reveal_strlit("//!");
        reveal_strlit("/**");
        reveal_strlit("/*!");
        let sub = text@.subrange(0, 3);
        assert(sub.len() == 3);
        assert(sub[0] == c0 && sub[1] == c1 && sub[2] == c2);
        if r {
            if c1 == '/' && c2 == '/' {
                assert(sub =~= "///"@);
            } else if c1 == '/' && c2 == '!' {
                assert(sub =~= "//!"@);
            } else if c1 == '*' && c2 == '*' {
                assert(sub =~= "/**"@);
            } else {
                assert(sub =~= "/*!"@);
            }
        }
    }
    r
}

/// Counts the lines among the first `end` bytes of a text, as
/// `line_count` defines them.
pub fn count_prefix_lines(text: &[u8], end: usize) -> (n: usize)
    requires
        end <= text@.len(),
    ensures
        n == line_count(text@.take(end as int)),
{
    let ghost p = text@.take(end as int);
    if end == 0 {
        return 0;
    }
    let mut count: usize = 0;
    let mut i: usize = 0;
    while i < end
        invariant
            0 <= i <= end <= text@.len(),
            p == text@.take(end as int),
            p.len() == end,
            count == newline_count(p.take(i as int)),
            count <= i,
        decreases end - i,
    {
        proof {
            lemma_newline_count_take_succ(p, i as int);
            assert(p[i as int] == text@[i as int]);
        }
        if text[i] == 10 {
            count = count + 1;
        }
        i = i + 1;
    }
    proof {
        lemma_newline_count_whole(p);
        lemma_newline_count_le(p, p.len() - 1);
        lemma_newline_count_take_succ(p, p.len() - 1);
        assert(p.last() == text@[end - 1]);
    }
    if text[end - 1] == 10 {
        count
    } else {
        count + 1
    }
}

/// Counts the lines of a text, as `line_count` defines them.
pub fn count_lines(text: &[u8]) -> (n: usize)
    ensures
        n == line_count(text@),
{
    let n = count_prefix_lines(text, text.len());
    proof {
        assert(text@.take(text@.len() as int) =~= text@);
    }
    n
}

/// Paints one `LineType` per line of `text` from its token list:
/// every line starts blank; comment tokens paint the lines they
/// touch as comment or doc; other non-whitespace tokens paint lines
/// as code, but never over a comment.
pub fn analyze_lines(text: &[u8], tokens: &Vec<Token>) -> (r: Vec<LineType>)
    ensures
        r@.len() == line_count(text@),
        forall|i: int| 0 <= i < r@.len() ==> r@[i] == classify_at(text@, tokens@, i),
{
    let ghost t = text@;
    let total = count_lines(text);
    if total == 0 {
        proof {
            assert(Seq::<LineType>::empty().len() == 0);
        }
        return Vec::new();
    }
    let starts = build_line_starts(text);
    let mut types: Vec<LineType> = Vec::new();
    let mut i: usize = 0;
    while i < total
        invariant
            types@.len() == i <= total,
            forall|k: int| 0 <= k < i ==> types@[k] == LineType::Blank,
        decreases total - i,
    {
        types.push(LineType::Blank);
        i = i + 1;
    }
    proof {
        assert(forall|k: int|
            0 <= k < total ==> types@[k] == classify_at(t, tokens@.take(0), k)) by {
            assert(tokens@.take(0) =~= Seq::<Token>::empty());
        }
    }
    let mut ti: usize = 0;
    while ti < tokens.len()
        invariant
            0 <= ti <= tokens@.len(),
            t == text@,
            total == line_count(t),
            total > 0,
            is_line_start_index(t, starts@.map_values(|u: usize| u as int)),
            types@.len() == total,
            forall|k: int| 0 <= k < total ==> types@[k] == classify_at(t, tokens@.take(ti as int), k),
        decreases tokens@.len() - ti,
    {
        let tok = &tokens[ti];
        let ghost toks_pre = tokens@.take(ti as int);
        let ghost toks_post = tokens@.take(ti as int + 1);
        proof {
            assert(toks_post.drop_last() =~= toks_pre);
            assert(toks_post.last() == tokens@[ti as int]);
        }
        match tok.kind {
            TokenKind::Whitespace => {
                proof {
                    assert forall|k: int| 0 <= k < total implies types@[k] == classify_at(
                        t,
                        toks_post,
                        k,
                    ) by {
                        lemma_classify_at_step(t, toks_post, k);
                    }
                }
            },
            TokenKind::Comment => {
                let paint = if is_doc_comment_text(&tok.text) {
                    LineType::Rustdoc
                } else {
                    LineType::Comment
                };
                let start_line = offset_to_line(&starts, tok.start, total, Ghost(t));
                let last_off = if tok.end > tok.start {
                    tok.end - 1
                } else {
                    tok.start
                };
                let end_line = offset_to_line(&starts, last_off, total, Ghost(t));
                proof {
                    lemma_line_of_monotone(t, tok.start as int, last_off as int);
                    lemma_line_of_bounds(t, last_off as int);
                }
                let mut j: usize = start_line;
                while j <= end_line
                    invariant
                        start_line <= j <= end_line + 1,
                        end_line < total,
                        start_line == token_start_line(t, *tok),
                        end_line == token_end_line(t, *tok),
                        paint == (if is_doc_comment(tok.text@) {
                            LineType::Rustdoc
                        } else {
                            LineType::Comment
                        }),
                        tok.kind == TokenKind::Comment,
                        tok == tokens@[ti as int],
                        ti < tokens@.len(),
                        toks_pre == tokens@.take(ti as int),
                        toks_post == tokens@.take(ti as int + 1),
                        toks_post.drop_last() =~= toks_pre,
                        toks_post.last() == tokens@[ti as int],
                        types@.len() == total,
                        forall|k: int|
                            0 <= k < j && k >= start_line ==> types@[k] == classify_at(
                                t,
                                toks_post,
                                k,
                            ),
                        forall|k: int|
                            0 <= k < total && !(start_line <= k < j) ==> types@[k] == classify_at(
                                t,
                                toks_pre,
                                k,
                            ),
                    decreases end_line + 1 - j,
                {
                    types.set(j, paint);
                    proof {
                        lemma_classify_at_step(t, toks_post, j as int);
                        assert(*tok == toks_post.last());
                        assert(start_line == token_start_line(t, toks_post.last()));
                        assert(end_line == token_end_line(t, toks_post.last()));
                        assert(start_line <= j as int <= end_line);
                        assert(token_covers(t, toks_post.last(), j as int));
                        assert(classify_at(t, toks_post, j as int) == paint);
                    }
                    j = j + 1;
                }
                proof {
                    assert forall|k: int|
                        0 <= k < total && !(start_line <= k <= end_line) implies types@[k]
                        == classify_at(t, toks_post, k) by {
                        lemma_classify_at_step(t, toks_post, k);
                    }
                }
            },
            TokenKind::Other => {
                let start_line = offset_to_line(&starts, tok.start, total, Ghost(t));
                let last_off = if tok.end > tok.start {
                    tok.end - 1
                } else {
                    tok.start
                };
                let end_line = offset_to_line(&starts, last_off, total, Ghost(t));
                proof {
                    lemma_line_of_monotone(t, tok.start as int, last_off as int);
                    lemma_line_of_bounds(t, last_off as int);
                }
                let mut j: usize = start_line;
                while j <= end_line
                    invariant
                        start_line <= j <= end_line + 1,
                        end_line < total,
                        start_line == token_start_line(t, *tok),
                        end_line == token_end_line(t, *tok),
                        tok == tokens@[ti as int],
                        tok.kind == TokenKind::Other,
                        ti < tokens@.len(),
                        toks_pre == tokens@.take(ti as int),
                        toks_post == tokens@.take(ti as int + 1),
                        toks_post.drop_last() =~= toks_pre,
                        toks_post.last() == tokens@[ti as int],
                        types@.len() == total,
                        forall|k: int|
                            0 <= k < j && k >= start_line ==> types@[k] == classify_at(
                                t,
                                toks_post,
                                k,
                            ),
                        forall|k: int|
                            0 <= k < total && !(start_line <= k < j) ==> types@[k] == classify_at(
                                t,
                                toks_pre,
                                k,
                            ),
                    decreases end_line + 1 - j,
                {
                    let cur = types[j];
                    if cur != LineType::Comment && cur != LineType::Rustdoc {
                        types.set(j, LineType::Code);
                    }
                    proof {
                        lemma_classify_at_step(t, toks_post, j as int);
                        assert(token_covers(t, toks_post.last(), j as int));
                    }
                    j = j + 1;
                }
                proof {
                    assert forall|k: int|
                        0 <= k < total && !(start_line <= k <= end_line) implies types@[k]
                        == classify_at(t, toks_post, k) by {
                        lemma_classify_at_step(t, toks_post, k);
                    }
                }
            },
        }
        ti = ti + 1;
    }
    proof {
        assert(tokens@.take(tokens@.len() as int) =~= tokens@);
    }
    types
}

// ---------------------------------------------------------------------
// Reduction to line statistics
// ---------------------------------------------------------------------

/// Count of lines of one category in a sequence.
pub open spec fn count_type(s: Seq<LineType>, t: LineType) -> int
    decreases s.len(),
{
    if s.len() == 0 {
        0
    } else {
        count_type(s.drop_last(), t) + if s.last() == t { 1int } else { 0 }
    }
}

/// The tally a category sequence reduces to, with `all` given
/// separately (a sub-scope reports the length of its own selection).
pub open spec fn tally_of(s: Seq<LineType>, all: int) -> LineTally {
    LineTally {
        all: all,
        blank: count_type(s, LineType::Blank),
        comment: count_type(s, LineType::Comment),
        rustdoc: count_type(s, LineType::Rustdoc),
        code: count_type(s, LineType::Code),
    }
}

/// One more line adds one to its own category's count and nothing to
/// the others.
pub proof fn lemma_count_type_push(s: Seq<LineType>, x: LineType, c: LineType)
    ensures
        count_type(s.push(x), c) == count_type(s, c) + if x == c { 1int } else { 0 },
{
    assert(s.push(x).drop_last() =~= s);
    assert(s.push(x).last() == x);
}

/// Every line falls in exactly one category, so the four counts sum
/// to the sequence's length.
pub proof fn lemma_count_partition(s: Seq<LineType>)
    ensures
        count_type(s, LineType::Blank) + count_type(s, LineType::Comment) + count_type(
            s,
            LineType::Rustdoc,
        ) + count_type(s, LineType::Code) == s.len(),
        count_type(s, LineType::Blank) >= 0,
        count_type(s, LineType::Comment) >= 0,
        count_type(s, LineType::Rustdoc) >= 0,
        count_type(s, LineType::Code) >= 0,
    decreases s.len(),
{
    if s.len() > 0 {
        lemma_count_partition(s.drop_last());
    }
}

/// Counts how many lines fall in each category.  The `all` count is
/// the given total, so that a selected subset can report its own
/// length there.
pub fn compute_line_stats(line_types: &[LineType], total_lines: usize) -> (r: LineStats)
    ensures
        r@ == tally_of(line_types@, total_lines as int),
{
    let ghost s = line_types@;
    let mut blank: usize = 0;
    let mut comment: usize = 0;
    let mut rustdoc: usize = 0;
    let mut code: usize = 0;
    let mut i: usize = 0;
    while i < line_types.len()
        invariant
            0 <= i <= s.len(),
            s == line_types@,
            blank == count_type(s.take(i as int), LineType::Blank),
            comment == count_type(s.take(i as int), LineType::Comment),
            rustdoc == count_type(s.take(i as int), LineType::Rustdoc),
            code == count_type(s.take(i as int), LineType::Code),
            blank + comment + rustdoc + code == i,
        decreases s.len() - i,
    {
        proof {
            assert(s.take(i as int + 1).drop_last() =~= s.take(i as int));
            assert(s.take(i as int + 1).last() == s[i as int]);
            lemma_count_partition(s.take(i as int));
        }
        match line_types[i] {
            LineType::Blank => blank = blank + 1,
            LineType::Comment => comment = comment + 1,
            LineType::Rustdoc => rustdoc = rustdoc + 1,
            LineType::Code => code = code + 1,
        }
        i = i + 1;
    }
    proof {
        assert(s.take(s.len() as int) =~= s);
    }
    LineStats {
        all_lines: total_lines,
        blank_lines: blank,
        comment_lines: comment,
        rustdoc_lines: rustdoc,
        code_lines: code,
    }
}

} // verus!
