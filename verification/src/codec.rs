//! The record codec: one `FileStats` per line in a self-describing
//! format, written when the spill-to-storage accumulator persists a
//! record and read back when it is enumerated.  Decoding inverts
//! encoding exactly; anything else is rejected, never misread.

use vstd::prelude::*;
use crate::sizes::digits_val;
use crate::stats::{FileModel, FileStats, LineStats, LineTally};
use crate::strutil::{dec_str, digit_char, digit_value, is_digit_char, usize_to_string};

verus! {

// ---------------------------------------------------------------------
// Control characters in quoted strings
// ---------------------------------------------------------------------

/// The lower-case hex digit of a value below sixteen.
pub open spec fn hex_char(d: int) -> char {
    if d == 0 {
        '0'
    } else if d == 1 {
        '1'
    } else if d == 2 {
        '2'
    } else if d == 3 {
        '3'
    } else if d == 4 {
        '4'
    } else if d == 5 {
        '5'
    } else if d == 6 {
        '6'
    } else if d == 7 {
        '7'
    } else if d == 8 {
        '8'
    } else if d == 9 {
        '9'
    } else if d == 10 {
        'a'
    } else if d == 11 {
        'b'
    } else if d == 12 {
        'c'
    } else if d == 13 {
        'd'
    } else if d == 14 {
        'e'
    } else {
        'f'
    }
}

/// The value a lower-case hex digit denotes; sixteen for any other
/// character.
pub open spec fn hex_value(c: char) -> int {
    if c == '0' {
        0
    } else if c == '1' {
        1
    } else if c == '2' {
        2
    } else if c == '3' {
        3
    } else if c == '4' {
        4
    } else if c == '5' {
        5
    } else if c == '6' {
        6
    } else if c == '7' {
        7
    } else if c == '8' {
        8
    } else if c == '9' {
        9
    } else if c == 'a' {
        10
    } else if c == 'b' {
        11
    } else if c == 'c' {
        12
    } else if c == 'd' {
        13
    } else if c == 'e' {
        14
    } else if c == 'f' {
        15
    } else {
        16
    }
}

/// The control character of a code below thirty-two.
pub open spec fn control_char(n: int) -> char {
    if n == 0 {
        '\u{00}'
    } else if n == 1 {
        '\u{01}'
    } else if n == 2 {
        '\u{02}'
    } else if n == 3 {
        '\u{03}'
    } else if n == 4 {
        '\u{04}'
    } else if n == 5 {
        '\u{05}'
    } else if n == 6 {
        '\u{06}'
    } else if n == 7 {
        '\u{07}'
    } else if n == 8 {
        '\u{08}'
    } else if n == 9 {
        '\u{09}'
    } else if n == 10 {
        '\u{0a}'
    } else if n == 11 {
        '\u{0b}'
    } else if n == 12 {
        '\u{0c}'
    } else if n == 13 {
        '\u{0d}'
    } else if n == 14 {
        '\u{0e}'
    } else if n == 15 {
        '\u{0f}'
    } else if n == 16 {
        '\u{10}'
    } else if n == 17 {
        '\u{11}'
    } else if n == 18 {
        '\u{12}'
    } else if n == 19 {
        '\u{13}'
    } else if n == 20 {
        '\u{14}'
    } else if n == 21 {
        '\u{15}'
    } else if n == 22 {
        '\u{16}'
    } else if n == 23 {
        '\u{17}'
    } else if n == 24 {
        '\u{18}'
    } else if n == 25 {
        '\u{19}'
    } else if n == 26 {
        '\u{1a}'
    } else if n == 27 {
        '\u{1b}'
    } else if n == 28 {
        '\u{1c}'
    } else if n == 29 {
        '\u{1d}'
    } else if n == 30 {
        '\u{1e}'
    } else {
        '\u{1f}'
    }
}

proof fn lemma_hex_char_value(d: int)
    requires
        0 <= d < 16,
    ensures
        hex_value(hex_char(d)) == d,
{
}

proof fn lemma_control_char_of(c: char)
    requires
        (c as u32) < 32,
    ensures
        control_char((c as u32) as int) == c,
{
}

/// One lower-case hex digit as a string slice.
fn hex_str(d: usize) -> (r: &'static str)
    requires
        d < 16,
    ensures
        r@ =~= seq![hex_char(d as int)],
{
    let digits = "0123456789abcdef";
    proof {
        reveal_strlit("0123456789abcdef");
    }
    let r = digits.substring_char(d, d + 1);
    proof {
        assert(r@ =~= seq![hex_char(d as int)]);
    }
    r
}

/// The value of one hex digit, refusing anything else.
fn hex_digit(c: char) -> (r: Option<u8>)
    ensures
        match r {
            Some(d) => hex_value(c) == d as int && d < 16,
            None => hex_value(c) == 16,
        },
{
    match c {
        '0' => Some(0),
        '1' => Some(1),
        '2' => Some(2),
        '3' => Some(3),
        '4' => Some(4),
        '5' => Some(5),
        '6' => Some(6),
        '7' => Some(7),
        '8' => Some(8),
        '9' => Some(9),
        'a' => Some(10),
        'b' => Some(11),
        'c' => Some(12),
        'd' => Some(13),
        'e' => Some(14),
        'f' => Some(15),
        _ => None,
    }
}

/// One control character as a string slice.
fn control_char_str(code: u8) -> (r: &'static str)
    requires
        code < 32,
    ensures
        r@ =~= seq![control_char(code as int)],
{
    let r: &'static str = match code {
        0 => "\u{00}",
        1 => "\u{01}",
        2 => "\u{02}",
        3 => "\u{03}",
        4 => "\u{04}",
        5 => "\u{05}",
        6 => "\u{06}",
        7 => "\u{07}",
        8 => "\u{08}",
        9 => "\u{09}",
        10 => "\u{0a}",
        11 => "\u{0b}",
        12 => "\u{0c}",
        13 => "\u{0d}",
        14 => "\u{0e}",
        15 => "\u{0f}",
        16 => "\u{10}",
        17 => "\u{11}",
        18 => "\u{12}",
        19 => "\u{13}",
        20 => "\u{14}",
        21 => "\u{15}",
        22 => "\u{16}",
        23 => "\u{17}",
        24 => "\u{18}",
        25 => "\u{19}",
        26 => "\u{1a}",
        27 => "\u{1b}",
        28 => "\u{1c}",
        29 => "\u{1d}",
        30 => "\u{1e}",
        _ => "\u{1f}",
    };
    proof {
        reveal_strlit("\u{00}");
        reveal_strlit("\u{01}");
        reveal_strlit("\u{02}");
        reveal_strlit("\u{03}");
        reveal_strlit("\u{04}");
        reveal_strlit("\u{05}");
        reveal_strlit("\u{06}");
        reveal_strlit("\u{07}");
        reveal_strlit("\u{08}");
        reveal_strlit("\u{09}");
        reveal_strlit("\u{0a}");
        reveal_strlit("\u{0b}");
        reveal_strlit("\u{0c}");
        reveal_strlit("\u{0d}");
        reveal_strlit("\u{0e}");
        reveal_strlit("\u{0f}");
        reveal_strlit("\u{10}");
        reveal_strlit("\u{11}");
        reveal_strlit("\u{12}");
        reveal_strlit("\u{13}");
        reveal_strlit("\u{14}");
        reveal_strlit("\u{15}");
        reveal_strlit("\u{16}");
        reveal_strlit("\u{17}");
        reveal_strlit("\u{18}");
        reveal_strlit("\u{19}");
        reveal_strlit("\u{1a}");
        reveal_strlit("\u{1b}");
        reveal_strlit("\u{1c}");
        reveal_strlit("\u{1d}");
        reveal_strlit("\u{1e}");
        reveal_strlit("\u{1f}");
        assert(r@ =~= seq![control_char(code as int)]);
    }
    r
}

// ---------------------------------------------------------------------
// Encoding
// ---------------------------------------------------------------------

/// How one character is written inside a quoted string: quote and
/// backslash are escaped, a control character is spelled out by its
/// code, and anything else stands for itself.
pub open spec fn esc_char(c: char) -> Seq<char> {
    if c == '"' {
        seq!['\\', '"']
    } else if c == '\\' {
        seq!['\\', '\\']
    } else if c == '\n' {
        seq!['\\', 'n']
    } else if c == '\r' {
        seq!['\\', 'r']
    } else if c == '\t' {
        seq!['\\', 't']
    } else if (c as u32) < 32 {
        seq!['\\', 'u', '0', '0', hex_char((c as u32) as int / 16), hex_char((c as u32) as int % 16)]
    } else {
        seq![c]
    }
}

/// A string escaped for quoting, character by character.
pub open spec fn escape(p: Seq<char>) -> Seq<char>
    decreases p.len(),
{
    if p.len() == 0 {
        Seq::empty()
    } else {
        esc_char(p.first()) + escape(p.drop_first())
    }
}

/// The encoding of one scope's line counts.
#[verifier::opaque]
pub open spec fn enc_line_stats(t: LineTally) -> Seq<char> {
    "{\"all-lines\":"@ + dec_str(t.all) + ",\"blank-lines\":"@ + dec_str(t.blank)
        + ",\"comment-lines\":"@ + dec_str(t.comment) + ",\"rustdoc-lines\":"@ + dec_str(t.rustdoc)
        + ",\"code-lines\":"@ + dec_str(t.code) + "}"@
}

/// The encoding of one file record: its quoted, escaped path and its
/// three count blocks.
#[verifier::opaque]
pub open spec fn enc_file_stats(f: FileModel) -> Seq<char> {
    "{\"path\":\""@ + escape(f.path) + "\""@ + ",\"total\":"@ + enc_line_stats(f.total)
        + ",\"production\":"@ + enc_line_stats(f.production) + ",\"test\":"@ + enc_line_stats(
        f.test,
    ) + "}"@
}

/// Escaping one more character appends its escape.
proof fn lemma_escape_push(p: Seq<char>, c: char)
    ensures
        escape(p.push(c)) == escape(p) + esc_char(c),
    decreases p.len(),
{
    if p.len() == 0 {
        reveal_with_fuel(escape, 3);
        assert(p.push(c).drop_first() =~= Seq::<char>::empty());
        assert(escape(p.push(c)) =~= esc_char(c));
        assert(escape(p) + esc_char(c) =~= esc_char(c));
    } else {
        assert(p.push(c).drop_first() =~= p.drop_first().push(c));
        lemma_escape_push(p.drop_first(), c);
        assert(escape(p.push(c)) == esc_char(p.first()) + (escape(p.drop_first()) + esc_char(c)));
        assert(esc_char(p.first()) + (escape(p.drop_first()) + esc_char(c)) =~= (esc_char(p.first())
            + escape(p.drop_first())) + esc_char(c));
    }
}

/// Appends the escaped form of `p` to `out`.
fn append_escaped(out: &mut String, p: &str)
    ensures
        final(out)@ == old(out)@ + escape(p@),
{
    let ghost base = old(out)@;
    let n = p.unicode_len();
    let mut i: usize = 0;
    proof {
        assert(base + escape(p@.take(0)) =~= base);
        assert(p@.take(0) =~= Seq::<char>::empty());
    }
    while i < n
        invariant
            0 <= i <= n,
            n == p@.len(),
            out@ == base + escape(p@.take(i as int)),
        decreases n - i,
    {
        let c = p.get_char(i);
        proof {
            assert(p@.take(i as int + 1) =~= p@.take(i as int).push(p@[i as int]));
            lemma_escape_push(p@.take(i as int), p@[i as int]);
        }
        if c == '"' {
            out.append("\\\"");
            proof {
                reveal_strlit("\\\"");
                assert("\\\""@ =~= esc_char(c));
            }
        } else if c == '\\' {
            out.append("\\\\");
            proof {
                reveal_strlit("\\\\");
                assert("\\\\"@ =~= esc_char(c));
            }
        } else if c == '\n' {
            out.append("\\n");
            proof {
                reveal_strlit("\\n");
                assert("\\n"@ =~= esc_char(c));
            }
        } else if c == '\r' {
            out.append("\\r");
            proof {
                reveal_strlit("\\r");
                assert("\\r"@ =~= esc_char(c));
            }
        } else if c == '\t' {
            out.append("\\t");
            proof {
                reveal_strlit("\\t");
                assert("\\t"@ =~= esc_char(c));
            }
        } else if (c as u32) < 32 {
            let u = c as u32;
            out.append("\\u00");
            out.append(hex_str((u / 16) as usize));
            out.append(hex_str((u % 16) as usize));
            proof {
                reveal_strlit("\\u00");
                assert(("\\u00"@ + seq![hex_char((c as u32) as int / 16)]) + seq![
                    hex_char((c as u32) as int % 16),
                ] =~= esc_char(c));
            }
        } else {
            let one = p.substring_char(i, i + 1);
            out.append(one);
            proof {
                assert(one@ =~= esc_char(c));
            }
        }
        proof {
            assert(out@ =~= base + escape(p@.take(i as int + 1)));
        }
        i = i + 1;
    }
    proof {
        assert(p@.take(n as int) =~= p@);
    }
}

/// Appends one scope's counts in the line-count block form.
pub(crate) fn append_line_stats(out: &mut String, s: &LineStats)
    ensures
        final(out)@ == old(out)@ + enc_line_stats(s@),
{
    out.append("{\"all-lines\":");
    let a = usize_to_string(s.all_lines);
    out.append(a.as_str());
    out.append(",\"blank-lines\":");
    let b = usize_to_string(s.blank_lines);
    out.append(b.as_str());
    out.append(",\"comment-lines\":");
    let c = usize_to_string(s.comment_lines);
    out.append(c.as_str());
    out.append(",\"rustdoc-lines\":");
    let d = usize_to_string(s.rustdoc_lines);
    out.append(d.as_str());
    out.append(",\"code-lines\":");
    let e = usize_to_string(s.code_lines);
    out.append(e.as_str());
    out.append("}");
    proof {
        reveal(enc_line_stats);
        assert(out@ =~= old(out)@ + enc_line_stats(s@));
    }
}

/// Encodes one file record as a single line.
pub fn encode_file_stats(fs: &FileStats) -> (r: String)
    ensures
        r@ == enc_file_stats(fs@),
{
    let mut out = String::new();
    out.append("{\"path\":\"");
    append_escaped(&mut out, fs.path.as_str());
    out.append("\"");
    out.append(",\"total\":");
    append_line_stats(&mut out, &fs.total);
    out.append(",\"production\":");
    append_line_stats(&mut out, &fs.production);
    out.append(",\"test\":");
    append_line_stats(&mut out, &fs.test);
    out.append("}");
    proof {
        reveal(enc_file_stats);
        assert(out@ =~= enc_file_stats(fs@));
    }
    out
}

// ---------------------------------------------------------------------
// Decoding: small parsers over the character sequence
// ---------------------------------------------------------------------

/// Consumes an exact literal at `pos`, yielding the position after it.
pub open spec fn p_lit(s: Seq<char>, pos: int, lit: Seq<char>) -> Option<int> {
    if 0 <= pos && pos + lit.len() <= s.len() && s.subrange(pos, pos + lit.len()) == lit {
        Some(pos + lit.len())
    } else {
        None
    }
}

/// Index of the first non-digit at or after `i`, or the length.
pub open spec fn first_nondigit_from(s: Seq<char>, i: int) -> int
    decreases s.len() - i,
{
    if i < 0 || i >= s.len() {
        s.len() as int
    } else if !is_digit_char(s[i]) {
        i
    } else {
        first_nondigit_from(s, i + 1)
    }
}

/// Consumes a run of digits at `pos`, yielding its value and the
/// position after it; there must be at least one digit and the value
/// must fit `usize`.
pub open spec fn p_num(s: Seq<char>, pos: int) -> Option<(int, int)> {
    if 0 <= pos < s.len() && is_digit_char(s[pos]) {
        let e = first_nondigit_from(s, pos);
        let v = digits_val(s, pos, e);
        if v <= usize::MAX {
            Some((v, e))
        } else {
            None
        }
    } else {
        None
    }
}

/// Consumes the body of a quoted string at `pos`, up to and over its
/// closing quote, undoing the escapes; yields the string read and the
/// position after the quote.
pub open spec fn p_qstr(s: Seq<char>, pos: int) -> Option<(Seq<char>, int)>
    decreases s.len() - pos,
{
    if pos < 0 || pos >= s.len() {
        None
    } else if s[pos] == '"' {
        Some((Seq::empty(), pos + 1))
    } else if s[pos] == '\\' {
        if pos + 1 < s.len() {
            let c = s[pos + 1];
            if c == 'u' {
                if pos + 5 < s.len() && s[pos + 2] == '0' && s[pos + 3] == '0' && hex_value(
                    s[pos + 4],
                ) < 16 && hex_value(s[pos + 5]) < 16 && hex_value(s[pos + 4]) * 16 + hex_value(
                    s[pos + 5],
                ) < 32 {
                    let ec = control_char(hex_value(s[pos + 4]) * 16 + hex_value(s[pos + 5]));
                    match p_qstr(s, pos + 6) {
                        Some(r) => Some((seq![ec] + r.0, r.1)),
                        None => None,
                    }
                } else {
                    None
                }
            } else {
                let e: Option<char> = if c == '"' {
                    Some('"')
                } else if c == '\\' {
                    Some('\\')
                } else if c == 'n' {
                    Some('\n')
                } else if c == 'r' {
                    Some('\r')
                } else if c == 't' {
                    Some('\t')
                } else {
                    None
                };
                match e {
                    Some(ec) => match p_qstr(s, pos + 2) {
                        Some(r) => Some((seq![ec] + r.0, r.1)),
                        None => None,
                    },
                    None => None,
                }
            }
        } else {
            None
        }
    } else {
        match p_qstr(s, pos + 1) {
            Some(r) => Some((seq![s[pos]] + r.0, r.1)),
            None => None,
        }
    }
}

/// Consumes one line-count block at `pos`.
#[verifier::opaque]
pub open spec fn dec_line_stats(s: Seq<char>, pos: int) -> Option<(LineTally, int)> {
    match p_lit(s, pos, "{\"all-lines\":"@) {
        None => None,
        Some(p1) => match p_num(s, p1) {
            None => None,
            Some((all, p2)) => match p_lit(s, p2, ",\"blank-lines\":"@) {
                None => None,
                Some(p3) => match p_num(s, p3) {
                    None => None,
                    Some((blank, p4)) => match p_lit(s, p4, ",\"comment-lines\":"@) {
                        None => None,
                        Some(p5) => match p_num(s, p5) {
                            None => None,
                            Some((comment, p6)) => match p_lit(s, p6, ",\"rustdoc-lines\":"@) {
                                None => None,
                                Some(p7) => match p_num(s, p7) {
                                    None => None,
                                    Some((rustdoc, p8)) => match p_lit(s, p8, ",\"code-lines\":"@) {
                                        None => None,
                                        Some(p9) => match p_num(s, p9) {
                                            None => None,
                                            Some((code, p10)) => match p_lit(s, p10, "}"@) {
                                                None => None,
                                                Some(p11) => Some(
                                                    (
                                                        LineTally {
                                                            all: all,
                                                            blank: blank,
                                                            comment: comment,
                                                            rustdoc: rustdoc,
                                                            code: code,
                                                        },
                                                        p11,
                                                    ),
                                                ),
                                            },
                                        },
                                    },
                                },
                            },
                        },
                    },
                },
            },
        },
    }
}

/// Consumes one encoded file record at `pos`.
#[verifier::opaque]
pub open spec fn dec_file_stats_at(s: Seq<char>, pos: int) -> Option<(FileModel, int)> {
    match p_lit(s, pos, "{\"path\":\""@) {
        None => None,
        Some(p1) => match p_qstr(s, p1) {
            None => None,
            Some((path, p2)) => match p_lit(s, p2, ",\"total\":"@) {
                None => None,
                Some(p3) => match dec_line_stats(s, p3) {
                    None => None,
                    Some((total, p4)) => match p_lit(s, p4, ",\"production\":"@) {
                        None => None,
                        Some(p5) => match dec_line_stats(s, p5) {
                            None => None,
                            Some((production, p6)) => match p_lit(s, p6, ",\"test\":"@) {
                                None => None,
                                Some(p7) => match dec_line_stats(s, p7) {
                                    None => None,
                                    Some((test, p8)) => match p_lit(s, p8, "}"@) {
                                        None => None,
                                        Some(p9) => Some(
                                            (
                                                FileModel {
                                                    path: path,
                                                    total: total,
                                                    production: production,
                                                    test: test,
                                                },
                                                p9,
                                            ),
                                        ),
                                    },
                                },
                            },
                        },
                    },
                },
            },
        },
    }
}

/// What a whole line decodes to: one file record filling the line
/// exactly, or nothing.
pub open spec fn dec_file_stats(s: Seq<char>) -> Option<FileModel> {
    match dec_file_stats_at(s, 0) {
        Some((f, e)) => if e == s.len() {
            Some(f)
        } else {
            None
        },
        None => None,
    }
}

// ---------------------------------------------------------------------
// Executable decoding
// ---------------------------------------------------------------------

/// Consumes the literal `lit` at `pos`.
pub(crate) fn eat_lit(s: &str, pos: usize, lit: &str) -> (r: Option<usize>)
    ensures
        match r {
            Some(np) => p_lit(s@, pos as int, lit@) == Some(np as int),
            None => p_lit(s@, pos as int, lit@) is None,
        },
{
    let sl = s.unicode_len();
    let n = lit.unicode_len();
    if pos > sl || n > sl - pos {
        return None;
    }
    let mut j: usize = 0;
    while j < n
        invariant
            0 <= j <= n,
            pos + n <= sl,
            sl == s@.len(),
            n == lit@.len(),
            forall|k: int| 0 <= k < j ==> s@[pos + k] == lit@[k],
        decreases n - j,
    {
        if s.get_char(pos + j) != lit.get_char(j) {
            proof {
                assert(s@.subrange(pos as int, pos as int + lit@.len())[j as int] == s@[pos + j]);
            }
            return None;
        }
        j = j + 1;
    }
    proof {
        assert(s@.subrange(pos as int, pos as int + lit@.len()) =~= lit@);
    }
    Some(pos + n)
}

/// Consumes a digit run at `pos`, refusing values beyond `usize`.
pub(crate) fn scan_number(s: &str, pos: usize) -> (r: Option<(usize, usize)>)
    ensures
        match r {
            Some(v) => p_num(s@, pos as int) == Some((v.0 as int, v.1 as int)),
            None => p_num(s@, pos as int) is None,
        },
{
    let sl = s.unicode_len();
    if pos >= sl {
        return None;
    }
    let first = s.get_char(pos);
    if crate::strutil::char_digit_value(first).is_none() {
        return None;
    }
    let max: u128 = usize::MAX as u128;
    let mut acc: u128 = 0;
    let mut i: usize = pos;
    loop
        invariant
            pos <= i <= sl,
            sl == s@.len(),
            0 <= pos < s@.len(),
            is_digit_char(s@[pos as int]),
            first_nondigit_from(s@, pos as int) == first_nondigit_from(s@, i as int),
            acc <= max + 1,
            acc <= max ==> acc as int == digits_val(s@, pos as int, i as int),
            acc > max ==> digits_val(s@, pos as int, i as int) > max,
            max == usize::MAX as u128,
        decreases sl - i,
    {
        let done = if i >= sl {
            true
        } else {
            let c = s.get_char(i);
            crate::strutil::char_digit_value(c).is_none()
        };
        if done {
            proof {
                assert(first_nondigit_from(s@, i as int) == i as int);
            }
            if acc > max {
                return None;
            }
            return Some((acc as usize, i));
        }
        let c = s.get_char(i);
        let d = match crate::strutil::char_digit_value(c) {
            Some(d) => d,
            None => {
                proof {
                    assert(false);
                }
                0
            },
        };
        proof {
            lemma_digits_val_nonneg_local(s@, pos as int, i as int);
            assert(digits_val(s@, pos as int, i as int + 1) == digits_val(
                s@,
                pos as int,
                i as int,
            ) * 10 + digit_value(s@[i as int]));
        }
        if acc > max / 10 || (acc == max / 10 && d as u128 > max % 10) {
            acc = max + 1;
        } else if acc == max + 1 {
        } else {
            acc = acc * 10 + d as u128;
        }
        i = i + 1;
    }
}

proof fn lemma_digits_val_nonneg_local(s: Seq<char>, a: int, b: int)
    ensures
        digits_val(s, a, b) >= 0,
    decreases b - a,
{
    if b > a {
        lemma_digits_val_nonneg_local(s, a, b - 1);
    }
}

/// How reading a quoted string composes: what was read so far is put
/// in front of whatever the rest of the body yields.
pub open spec fn qstr_prepend(a: Seq<char>, o: Option<(Seq<char>, int)>) -> Option<
    (Seq<char>, int),
> {
    match o {
        Some(r) => Some((a + r.0, r.1)),
        None => None,
    }
}

proof fn lemma_qstr_step_escape(s: Seq<char>, pos: int, cur: int, a0: Seq<char>, a1: Seq<char>, ec: char)
    requires
        0 <= cur < s.len(),
        s[cur] == '\\',
        cur + 1 < s.len(),
        (s[cur + 1] == '"' && ec == '"') || (s[cur + 1] == '\\' && ec == '\\') || (s[cur + 1] == 'n'
            && ec == '\n') || (s[cur + 1] == 'r' && ec == '\r') || (s[cur + 1] == 't' && ec
            == '\t'),
        a1 == a0 + seq![ec],
        p_qstr(s, pos) == qstr_prepend(a0, p_qstr(s, cur)),
    ensures
        p_qstr(s, pos) == qstr_prepend(a1, p_qstr(s, cur + 2)),
{
    match p_qstr(s, cur + 2) {
        Some(r) => {
            assert(a0 + (seq![ec] + r.0) =~= a1 + r.0);
        },
        None => {
        },
    }
}

proof fn lemma_qstr_step_unicode(
    s: Seq<char>,
    pos: int,
    cur: int,
    a0: Seq<char>,
    a1: Seq<char>,
    code: int,
)
    requires
        0 <= cur,
        cur + 5 < s.len(),
        s[cur] == '\\',
        s[cur + 1] == 'u',
        s[cur + 2] == '0',
        s[cur + 3] == '0',
        hex_value(s[cur + 4]) < 16,
        hex_value(s[cur + 5]) < 16,
        code == hex_value(s[cur + 4]) * 16 + hex_value(s[cur + 5]),
        code < 32,
        a1 == a0 + seq![control_char(code)],
        p_qstr(s, pos) == qstr_prepend(a0, p_qstr(s, cur)),
    ensures
        p_qstr(s, pos) == qstr_prepend(a1, p_qstr(s, cur + 6)),
{
    match p_qstr(s, cur + 6) {
        Some(r) => {
            assert(a0 + (seq![control_char(code)] + r.0) =~= a1 + r.0);
        },
        None => {
        },
    }
}

proof fn lemma_qstr_step_plain(s: Seq<char>, pos: int, cur: int, a0: Seq<char>, a1: Seq<char>)
    requires
        0 <= cur < s.len(),
        s[cur] != '"',
        s[cur] != '\\',
        a1 == a0 + seq![s[cur]],
        p_qstr(s, pos) == qstr_prepend(a0, p_qstr(s, cur)),
    ensures
        p_qstr(s, pos) == qstr_prepend(a1, p_qstr(s, cur + 1)),
{
    match p_qstr(s, cur + 1) {
        Some(r) => {
            assert(a0 + (seq![s[cur]] + r.0) =~= a1 + r.0);
        },
        None => {
        },
    }
}

/// Consumes a quoted string's body and closing quote at `pos`.
fn parse_qstr(s: &str, pos: usize) -> (r: Option<(String, usize)>)
    ensures
        match r {
            Some(v) => p_qstr(s@, pos as int) == Some((v.0@, v.1 as int)),
            None => p_qstr(s@, pos as int) is None,
        },
{
    let sl = s.unicode_len();
    let mut acc = String::new();
    let mut cur: usize = pos;
    proof {
        match p_qstr(s@, pos as int) {
            Some(r) => {
                assert(Seq::<char>::empty() + r.0 =~= r.0);
            },
            None => {
            },
        }
    }
    loop
        invariant
            pos <= cur,
            sl == s@.len(),
            p_qstr(s@, pos as int) == qstr_prepend(acc@, p_qstr(s@, cur as int)),
        decreases s@.len() - cur,
    {
        if cur >= sl {
            return None;
        }
        let c = s.get_char(cur);
        if c == '"' {
            proof {
                assert(acc@ + Seq::<char>::empty() =~= acc@);
            }
            return Some((acc, cur + 1));
        }
        if c == '\\' {
            if cur + 1 >= sl {
                return None;
            }
            let ghost a0 = acc@;
            let c2 = s.get_char(cur + 1);
            if c2 == 'u' {
                if sl - cur <= 5 {
                    return None;
                }
                if s.get_char(cur + 2) != '0' || s.get_char(cur + 3) != '0' {
                    return None;
                }
                let hi = match hex_digit(s.get_char(cur + 4)) {
                    Some(d) => d,
                    None => {
                        return None;
                    },
                };
                let lo = match hex_digit(s.get_char(cur + 5)) {
                    Some(d) => d,
                    None => {
                        return None;
                    },
                };
                let code = hi * 16 + lo;
                if code >= 32 {
                    return None;
                }
                acc.append(control_char_str(code));
                proof {
                    assert(acc@ =~= a0 + seq![control_char(code as int)]);
                    lemma_qstr_step_unicode(s@, pos as int, cur as int, a0, acc@, code as int);
                }
                cur = cur + 6;
                continue;
            }
            let ec: char;
            if c2 == '"' {
                ec = '"';
                acc.append("\"");
                proof {
                    reveal_strlit("\"");
                }
            } else if c2 == '\\' {
                ec = '\\';
                acc.append("\\");
                proof {
                    reveal_strlit("\\");
                }
            } else if c2 == 'n' {
                ec = '\n';
                acc.append("\n");
                proof {
                    reveal_strlit("\n");
                }
            } else if c2 == 'r' {
                ec = '\r';
                acc.append("\r");
                proof {
                    reveal_strlit("\r");
                }
            } else if c2 == 't' {
                ec = '\t';
                acc.append("\t");
                proof {
                    reveal_strlit("\t");
                }
            } else {
                return None;
            }
            proof {
                assert(acc@ =~= a0 + seq![ec]);
                lemma_qstr_step_escape(s@, pos as int, cur as int, a0, acc@, ec);
            }
            cur = cur + 2;
        } else {
            let ghost a0 = acc@;
            let one = s.substring_char(cur, cur + 1);
            acc.append(one);
            proof {
                assert(acc@ =~= a0 + seq![s@[cur as int]]);
                lemma_qstr_step_plain(s@, pos as int, cur as int, a0, acc@);
            }
            cur = cur + 1;
        }
    }
}

/// Decodes one line-count block at `pos`.
pub(crate) fn decode_line_stats(s: &str, pos: usize) -> (r: Option<(LineStats, usize)>)
    ensures
        match r {
            Some(v) => dec_line_stats(s@, pos as int) == Some((v.0@, v.1 as int)),
            None => dec_line_stats(s@, pos as int) is None,
        },
{
    proof {
        reveal(dec_line_stats);
    }
    let p1 = match eat_lit(s, pos, "{\"all-lines\":") {
        Some(p) => p,
        None => {
            return None;
        },
    };
    let (all, p2) = match scan_number(s, p1) {
        Some(v) => v,
        None => {
            return None;
        },
    };
    let p3 = match eat_lit(s, p2, ",\"blank-lines\":") {
        Some(p) => p,
        None => {
            return None;
        },
    };
    let (blank, p4) = match scan_number(s, p3) {
        Some(v) => v,
        None => {
            return None;
        },
    };
    let p5 = match eat_lit(s, p4, ",\"comment-lines\":") {
        Some(p) => p,
        None => {
            return None;
        },
    };
    let (comment, p6) = match scan_number(s, p5) {
        Some(v) => v,
        None => {
            return None;
        },
    };
    let p7 = match eat_lit(s, p6, ",\"rustdoc-lines\":") {
        Some(p) => p,
        None => {
            return None;
        },
    };
    let (rustdoc, p8) = match scan_number(s, p7) {
        Some(v) => v,
        None => {
            return None;
        },
    };
    let p9 = match eat_lit(s, p8, ",\"code-lines\":") {
        Some(p) => p,
        None => {
            return None;
        },
    };
    let (code, p10) = match scan_number(s, p9) {
        Some(v) => v,
        None => {
            return None;
        },
    };
    let p11 = match eat_lit(s, p10, "}") {
        Some(p) => p,
        None => {
            return None;
        },
    };
    Some(
        (
            LineStats {
                all_lines: all,
                blank_lines: blank,
                comment_lines: comment,
                rustdoc_lines: rustdoc,
                code_lines: code,
            },
            p11,
        ),
    )
}

/// Decodes one encoded record found at `pos`.
pub(crate) fn decode_file_stats_at(line: &str, pos: usize) -> (r: Option<(FileStats, usize)>)
    ensures
        match r {
            Some(v) => dec_file_stats_at(line@, pos as int) == Some((v.0@, v.1 as int)),
            None => dec_file_stats_at(line@, pos as int) is None,
        },
{
    proof {
        reveal(dec_file_stats_at);
    }
    let p1 = match eat_lit(line, pos, "{\"path\":\"") {
        Some(p) => p,
        None => {
            return None;
        },
    };
    let (path, p2) = match parse_qstr(line, p1) {
        Some(v) => v,
        None => {
            return None;
        },
    };
    let p3 = match eat_lit(line, p2, ",\"total\":") {
        Some(p) => p,
        None => {
            return None;
        },
    };
    let (total, p4) = match decode_line_stats(line, p3) {
        Some(v) => v,
        None => {
            return None;
        },
    };
    let p5 = match eat_lit(line, p4, ",\"production\":") {
        Some(p) => p,
        None => {
            return None;
        },
    };
    let (production, p6) = match decode_line_stats(line, p5) {
        Some(v) => v,
        None => {
            return None;
        },
    };
    let p7 = match eat_lit(line, p6, ",\"test\":") {
        Some(p) => p,
        None => {
            return None;
        },
    };
    let (test, p8) = match decode_line_stats(line, p7) {
        Some(v) => v,
        None => {
            return None;
        },
    };
    let p9 = match eat_lit(line, p8, "}") {
        Some(p) => p,
        None => {
            return None;
        },
    };
    Some((FileStats { path, total, production, test }, p9))
}

/// Decodes one whole encoded record, refusing any line that is not
/// exactly one record.
pub fn decode_file_stats(line: &str) -> (r: Option<FileStats>)
    ensures
        match r {
            Some(fs) => dec_file_stats(line@) == Some(fs@),
            None => dec_file_stats(line@) is None,
        },
{
    match decode_file_stats_at(line, 0) {
        Some((fs, end)) => {
            if end != line.unicode_len() {
                return None;
            }
            Some(fs)
        },
        None => None,
    }
}

// ---------------------------------------------------------------------
// Decoding inverts encoding
// ---------------------------------------------------------------------

/// A tally whose counts can come out of a `LineStats` value.
pub open spec fn tally_in_range(t: LineTally) -> bool {
    &&& 0 <= t.all <= usize::MAX
    &&& 0 <= t.blank <= usize::MAX
    &&& 0 <= t.comment <= usize::MAX
    &&& 0 <= t.rustdoc <= usize::MAX
    &&& 0 <= t.code <= usize::MAX
}

/// A record whose counts can come out of a `FileStats` value.
pub open spec fn file_in_range(f: FileModel) -> bool {
    tally_in_range(f.total) && tally_in_range(f.production) && tally_in_range(f.test)
}

/// Splits a matched concatenation: when a stretch of `s` reads
/// `x + y`, its front reads `x` and its back reads `y`.
pub(crate) proof fn lemma_split_match(s: Seq<char>, off: int, x: Seq<char>, y: Seq<char>)
    requires
        0 <= off,
        off + x.len() + y.len() <= s.len(),
        s.subrange(off, off + x.len() + y.len()) == x + y,
    ensures
        s.subrange(off, off + x.len()) == x,
        s.subrange(off + x.len(), off + x.len() + y.len()) == y,
{
    let w = x + y;
    assert forall|k: int| 0 <= k < x.len() implies s.subrange(off, off + x.len())[k] == x[k] by {
        assert(s.subrange(off, off + w.len())[k] == s[off + k]);
        assert(s.subrange(off, off + x.len())[k] == s[off + k]);
        assert(w[k] == x[k]);
    }
    assert(s.subrange(off, off + x.len()) =~= x);
    assert forall|k: int| 0 <= k < y.len() implies s.subrange(
        off + x.len(),
        off + x.len() + y.len(),
    )[k] == y[k] by {
        assert(s.subrange(off, off + w.len())[x.len() + k] == s[off + x.len() + k]);
        assert(s.subrange(off + x.len(), off + x.len() + y.len())[k] == s[off + x.len() + k]);
        assert(w[x.len() + k] == y[k]);
    }
    assert(s.subrange(off + x.len(), off + x.len() + y.len()) =~= y);
}

pub(crate) proof fn lemma_char_of_match(s: Seq<char>, pos: int, e: Seq<char>, a: int)
    requires
        0 <= pos,
        pos + e.len() <= s.len(),
        s.subrange(pos, pos + e.len()) == e,
        0 <= a < e.len(),
    ensures
        s[pos + a] == e[a],
{
    assert(s.subrange(pos, pos + e.len())[a] == s[pos + a]);
}

proof fn lemma_first_nondigit_scan(s: Seq<char>, i: int, e: int)
    requires
        0 <= i <= e <= s.len(),
        forall|k: int| i <= k < e ==> is_digit_char(#[trigger] s[k]),
        e < s.len() ==> !is_digit_char(s[e]),
    ensures
        first_nondigit_from(s, i) == e,
    decreases e - i,
{
    if i < e {
        lemma_first_nondigit_scan(s, i + 1, e);
    }
}

proof fn lemma_digits_val_of_dec_str(s: Seq<char>, a: int, n: int)
    requires
        n >= 0,
        0 <= a,
        a + dec_str(n).len() <= s.len(),
        s.subrange(a, a + dec_str(n).len()) == dec_str(n),
    ensures
        digits_val(s, a, a + dec_str(n).len()) == n,
    decreases n,
{
    crate::strutil::lemma_dec_str_digits(n);
    if n < 10 {
        assert(s.subrange(a, a + 1)[0] == s[a]);
        assert(s[a] == digit_char(n));
        assert(digits_val(s, a, a + 1) == digits_val(s, a, a) * 10 + digit_value(s[a]));
        assert(digit_value(digit_char(n)) == n);
    } else {
        let d = dec_str(n);
        let dp = dec_str(n / 10);
        assert(d == dp.push(digit_char(n % 10)));
        let l = d.len();
        assert(s.subrange(a, a + l - 1) =~= dp) by {
            assert forall|k: int| 0 <= k < l - 1 implies s.subrange(a, a + l - 1)[k] == dp[k] by {
                assert(s.subrange(a, a + l)[k] == s[a + k]);
                assert(s.subrange(a, a + l - 1)[k] == s[a + k]);
                assert(d[k] == dp[k]);
            }
        }
        lemma_digits_val_of_dec_str(s, a, n / 10);
        assert(s.subrange(a, a + l)[l - 1] == s[a + l - 1]);
        assert(s[a + l - 1] == digit_char(n % 10));
        assert(digits_val(s, a, a + l) == digits_val(s, a, a + l - 1) * 10 + digit_value(
            s[a + l - 1],
        ));
        assert(digit_value(digit_char(n % 10)) == n % 10);
        assert((n / 10) * 10 + n % 10 == n);
    }
}

pub(crate) proof fn lemma_p_num_at(s: Seq<char>, pos: int, n: int)
    requires
        0 <= n <= usize::MAX,
        0 <= pos,
        pos + dec_str(n).len() <= s.len(),
        s.subrange(pos, pos + dec_str(n).len()) == dec_str(n),
        pos + dec_str(n).len() == s.len() || !is_digit_char(s[pos + dec_str(n).len()]),
    ensures
        p_num(s, pos) == Some((n, pos + dec_str(n).len())),
{
    let l = dec_str(n).len();
    crate::strutil::lemma_dec_str_digits(n);
    assert forall|k: int| pos <= k < pos + l implies is_digit_char(#[trigger] s[k]) by {
        assert(s.subrange(pos, pos + l)[k - pos] == s[k]);
        assert(dec_str(n)[k - pos] == s[k]);
    }
    assert(s.subrange(pos, pos + l)[0] == s[pos]);
    lemma_first_nondigit_scan(s, pos, pos + l);
    lemma_digits_val_of_dec_str(s, pos, n);
}

proof fn lemma_p_qstr_at(s: Seq<char>, pos: int, p: Seq<char>)
    requires
        0 <= pos,
        pos + escape(p).len() + 1 <= s.len(),
        s.subrange(pos, pos + escape(p).len()) == escape(p),
        s[pos + escape(p).len()] == '"',
    ensures
        p_qstr(s, pos) == Some((p, pos + escape(p).len() + 1)),
    decreases p.len(),
{
    if p.len() == 0 {
        assert(escape(p).len() == 0);
        assert(s[pos] == '"');
        assert(p =~= Seq::<char>::empty());
    } else {
        let c = p.first();
        let ec = esc_char(c);
        let rest = escape(p.drop_first());
        assert(escape(p) == ec + rest);
        let l = escape(p).len();
        assert forall|k: int| 0 <= k < l implies s[pos + k] == escape(p)[k] by {
            assert(s.subrange(pos, pos + l)[k] == s[pos + k]);
        }
        if ec.len() == 2 {
            assert(s[pos + 0] == escape(p)[0]);
            assert(s[pos + 1] == escape(p)[1]);
            assert(s[pos] == ec[0] && s[pos + 1] == ec[1]);
            assert(ec[0] == '\\');
            assert(s.subrange(pos + 2, pos + 2 + rest.len()) =~= rest) by {
                assert forall|k: int| 0 <= k < rest.len() implies s.subrange(
                    pos + 2,
                    pos + 2 + rest.len(),
                )[k] == rest[k] by {
                    assert(s.subrange(pos + 2, pos + 2 + rest.len())[k] == s[pos + 2 + k]);
                    assert(escape(p)[2 + k] == rest[k]);
                }
            }
            assert(s[pos + 2 + rest.len()] == '"');
            lemma_p_qstr_at(s, pos + 2, p.drop_first());
            assert(seq![c] + p.drop_first() =~= p);
        } else if ec.len() == 6 {
            // a control character, spelled out as its hex code
            assert(s[pos + 0] == escape(p)[0]);
            assert(s[pos + 1] == escape(p)[1]);
            assert(s[pos + 2] == escape(p)[2]);
            assert(s[pos + 3] == escape(p)[3]);
            assert(s[pos + 4] == escape(p)[4]);
            assert(s[pos + 5] == escape(p)[5]);
            assert((c as u32) < 32);
            let code = (c as u32) as int;
            assert(s[pos + 4] == hex_char(code / 16) && s[pos + 5] == hex_char(code % 16));
            lemma_hex_char_value(code / 16);
            lemma_hex_char_value(code % 16);
            assert(hex_value(s[pos + 4]) * 16 + hex_value(s[pos + 5]) == code);
            lemma_control_char_of(c);
            assert(s.subrange(pos + 6, pos + 6 + rest.len()) =~= rest) by {
                assert forall|k: int| 0 <= k < rest.len() implies s.subrange(
                    pos + 6,
                    pos + 6 + rest.len(),
                )[k] == rest[k] by {
                    assert(s.subrange(pos + 6, pos + 6 + rest.len())[k] == s[pos + 6 + k]);
                    assert(escape(p)[6 + k] == rest[k]);
                }
            }
            assert(s[pos + 6 + rest.len()] == '"');
            lemma_p_qstr_at(s, pos + 6, p.drop_first());
            assert(seq![c] + p.drop_first() =~= p);
        } else {
            assert(ec.len() == 1);
            assert(s[pos + 0] == escape(p)[0]);
            assert(s[pos] == c);
            assert(c != '"' && c != '\\');
            assert(s.subrange(pos + 1, pos + 1 + rest.len()) =~= rest) by {
                assert forall|k: int| 0 <= k < rest.len() implies s.subrange(
                    pos + 1,
                    pos + 1 + rest.len(),
                )[k] == rest[k] by {
                    assert(s.subrange(pos + 1, pos + 1 + rest.len())[k] == s[pos + 1 + k]);
                    assert(escape(p)[1 + k] == rest[k]);
                }
            }
            assert(s[pos + 1 + rest.len()] == '"');
            lemma_p_qstr_at(s, pos + 1, p.drop_first());
            assert(seq![c] + p.drop_first() =~= p);
        }
    }
}

#[verifier::rlimit(100)]
#[verifier::spinoff_prover]
pub(crate) proof fn lemma_dec_line_stats_at(s: Seq<char>, pos: int, t: LineTally)
    requires
        tally_in_range(t),
        0 <= pos,
        pos + enc_line_stats(t).len() <= s.len(),
        s.subrange(pos, pos + enc_line_stats(t).len()) == enc_line_stats(t),
    ensures
        dec_line_stats(s, pos) == Some((t, pos + enc_line_stats(t).len())),
{
    reveal(dec_line_stats);
    reveal(enc_line_stats);
    let e = enc_line_stats(t);
    let m1 = "{\"all-lines\":"@;
    let m2 = ",\"blank-lines\":"@;
    let m3 = ",\"comment-lines\":"@;
    let m4 = ",\"rustdoc-lines\":"@;
    let m5 = ",\"code-lines\":"@;
    let rb = "}"@;
    reveal_strlit("{\"all-lines\":");
    reveal_strlit(",\"blank-lines\":");
    reveal_strlit(",\"comment-lines\":");
    reveal_strlit(",\"rustdoc-lines\":");
    reveal_strlit(",\"code-lines\":");
    reveal_strlit("}");
    let d1 = dec_str(t.all);
    let d2 = dec_str(t.blank);
    let d3 = dec_str(t.comment);
    let d4 = dec_str(t.rustdoc);
    let d5 = dec_str(t.code);
    let o1 = m1.len() as int;
    let o2 = o1 + d1.len();
    let o3 = o2 + m2.len();
    let o4 = o3 + d2.len();
    let o5 = o4 + m3.len();
    let o6 = o5 + d3.len();
    let o7 = o6 + m4.len();
    let o8 = o7 + d4.len();
    let o9 = o8 + m5.len();
    let o10 = o9 + d5.len();
    let o11 = o10 + rb.len();
    let a1 = m1 + d1;
    let a2 = a1 + m2;
    let a3 = a2 + d2;
    let a4 = a3 + m3;
    let a5 = a4 + d3;
    let a6 = a5 + m4;
    let a7 = a6 + d4;
    let a8 = a7 + m5;
    let a9 = a8 + d5;
    assert(e == a9 + rb);
    assert(e.len() == o11);
    lemma_split_match(s, pos, a9, rb);
    lemma_split_match(s, pos, a8, d5);
    lemma_split_match(s, pos, a7, m5);
    lemma_split_match(s, pos, a6, d4);
    lemma_split_match(s, pos, a5, m4);
    lemma_split_match(s, pos, a4, d3);
    lemma_split_match(s, pos, a3, m3);
    lemma_split_match(s, pos, a2, d2);
    lemma_split_match(s, pos, a1, m2);
    lemma_split_match(s, pos, m1, d1);
    lemma_char_of_match(s, pos + o2, m2, 0);
    lemma_char_of_match(s, pos + o4, m3, 0);
    lemma_char_of_match(s, pos + o6, m4, 0);
    lemma_char_of_match(s, pos + o8, m5, 0);
    lemma_char_of_match(s, pos + o10, rb, 0);
    assert(p_lit(s, pos, m1) == Some(pos + o1));
    lemma_p_num_at(s, pos + o1, t.all);
    assert(p_lit(s, pos + o2, m2) == Some(pos + o3));
    lemma_p_num_at(s, pos + o3, t.blank);
    assert(p_lit(s, pos + o4, m3) == Some(pos + o5));
    lemma_p_num_at(s, pos + o5, t.comment);
    assert(p_lit(s, pos + o6, m4) == Some(pos + o7));
    lemma_p_num_at(s, pos + o7, t.rustdoc);
    assert(p_lit(s, pos + o8, m5) == Some(pos + o9));
    lemma_p_num_at(s, pos + o9, t.code);
    assert(p_lit(s, pos + o10, rb) == Some(pos + o11));
}

/// A record's encoding, standing anywhere inside a larger text,
/// decodes to exactly that record.
#[verifier::rlimit(100)]
#[verifier::spinoff_prover]
pub proof fn lemma_dec_file_stats_at_round(s: Seq<char>, pos: int, f: FileModel)
    requires
        file_in_range(f),
        0 <= pos,
        pos + enc_file_stats(f).len() <= s.len(),
        s.subrange(pos, pos + enc_file_stats(f).len()) == enc_file_stats(f),
    ensures
        dec_file_stats_at(s, pos) == Some((f, pos + enc_file_stats(f).len())),
{
    reveal(dec_file_stats_at);
    reveal(enc_file_stats);
    let l1 = "{\"path\":\""@;
    let q = "\""@;
    let l2 = ",\"total\":"@;
    let l3 = ",\"production\":"@;
    let l4 = ",\"test\":"@;
    let rb = "}"@;
    reveal_strlit("{\"path\":\"");
    reveal_strlit("\"");
    reveal_strlit(",\"total\":");
    reveal_strlit(",\"production\":");
    reveal_strlit(",\"test\":");
    reveal_strlit("}");
    let e = enc_file_stats(f);
    let ep = escape(f.path);
    let e1 = enc_line_stats(f.total);
    let e2 = enc_line_stats(f.production);
    let e3 = enc_line_stats(f.test);
    let o1 = pos + l1.len();
    let o2 = o1 + ep.len();
    let o3 = o2 + q.len();
    let o4 = o3 + l2.len();
    let o5 = o4 + e1.len();
    let o6 = o5 + l3.len();
    let o7 = o6 + e2.len();
    let o8 = o7 + l4.len();
    let o9 = o8 + e3.len();
    let o10 = o9 + rb.len();
    let a1 = l1 + ep;
    let a2 = a1 + q;
    let a3 = a2 + l2;
    let a4 = a3 + e1;
    let a5 = a4 + l3;
    let a6 = a5 + e2;
    let a7 = a6 + l4;
    let a8 = a7 + e3;
    assert(e == a8 + rb);
    assert(pos + e.len() == o10);
    lemma_split_match(s, pos, a8, rb);
    lemma_split_match(s, pos, a7, e3);
    lemma_split_match(s, pos, a6, l4);
    lemma_split_match(s, pos, a5, e2);
    lemma_split_match(s, pos, a4, l3);
    lemma_split_match(s, pos, a3, e1);
    lemma_split_match(s, pos, a2, l2);
    lemma_split_match(s, pos, a1, q);
    lemma_split_match(s, pos, l1, ep);
    lemma_char_of_match(s, o2, q, 0);
    assert(s[o2] == '"');
    assert(p_lit(s, pos, l1) == Some(o1));
    lemma_p_qstr_at(s, o1, f.path);
    assert(p_lit(s, o3, l2) == Some(o4));
    lemma_dec_line_stats_at(s, o4, f.total);
    assert(p_lit(s, o5, l3) == Some(o6));
    lemma_dec_line_stats_at(s, o6, f.production);
    assert(p_lit(s, o7, l4) == Some(o8));
    lemma_dec_line_stats_at(s, o8, f.test);
    assert(p_lit(s, o9, rb) == Some(o10));
}

/// Decoding inverts encoding: a record written by the encoder reads
/// back as exactly the same record.
pub proof fn lemma_round_trip(f: FileModel)
    requires
        file_in_range(f),
    ensures
        dec_file_stats(enc_file_stats(f)) == Some(f),
{
    let s = enc_file_stats(f);
    assert(s.subrange(0, s.len() as int) =~= s);
    lemma_dec_file_stats_at_round(s, 0, f);
}

} // verus!
