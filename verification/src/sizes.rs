//! Parsing of human-written file sizes: a decimal number with an
//! optional unit suffix (`KB`, `MB`, `GB`, case-insensitive), yielding
//! bytes.  `3.5KB` is 3584; without a unit the number is bytes.

use vstd::prelude::*;
use crate::strutil::{digit_value, is_digit_char};

verus! {

/// ASCII whitespace, as trimming recognizes it.
pub open spec fn is_space_char(c: char) -> bool {
    c == ' ' || c == '\t' || c == '\n' || c == '\r'
}

/// An ASCII letter.
pub open spec fn is_alpha_char(c: char) -> bool {
    (97 <= c as u32 && c as u32 <= 122) || (65 <= c as u32 && c as u32 <= 90)
}

/// Index of the first non-space character at or after `i`, or the
/// length when only spaces remain.
pub open spec fn trim_start_from(s: Seq<char>, i: int) -> int
    decreases s.len() - i,
{
    if i < 0 || i >= s.len() {
        s.len() as int
    } else if is_space_char(s[i]) {
        trim_start_from(s, i + 1)
    } else {
        i
    }
}

/// One past the last non-space character strictly before `j`, or zero
/// when only spaces precede.
pub open spec fn trim_end_from(s: Seq<char>, j: int) -> int
    decreases j,
{
    if j <= 0 || j > s.len() {
        0
    } else if is_space_char(s[j - 1]) {
        trim_end_from(s, j - 1)
    } else {
        j
    }
}

/// The text with leading and trailing spaces removed.
pub open spec fn trimmed(s: Seq<char>) -> Seq<char> {
    let a = trim_start_from(s, 0);
    let b = trim_end_from(s, s.len() as int);
    if a >= b {
        Seq::empty()
    } else {
        s.subrange(a, b)
    }
}

/// Index of the first ASCII letter at or after `i`, or the length.
pub open spec fn first_alpha_from(s: Seq<char>, i: int) -> int
    decreases s.len() - i,
{
    if i < 0 || i >= s.len() {
        s.len() as int
    } else if is_alpha_char(s[i]) {
        i
    } else {
        first_alpha_from(s, i + 1)
    }
}

/// Index of the first dot in `[i, b)`, or `b`.
pub open spec fn first_dot_from(s: Seq<char>, i: int, b: int) -> int
    decreases b - i,
{
    if i < 0 || i >= b || b > s.len() {
        b
    } else if s[i] == '.' {
        i
    } else {
        first_dot_from(s, i + 1, b)
    }
}

/// The multiplier a unit suffix stands for: none is bytes; `KB`, `MB`
/// and `GB` are the binary multiples; anything else is no unit.
pub open spec fn unit_mult(u: Seq<char>) -> Option<int> {
    if u.len() == 0 {
        Some(1)
    } else if u.len() == 2 && (u[0] == 'K' || u[0] == 'k') && (u[1] == 'B' || u[1] == 'b') {
        Some(1024)
    } else if u.len() == 2 && (u[0] == 'M' || u[0] == 'm') && (u[1] == 'B' || u[1] == 'b') {
        Some(1024int * 1024)
    } else if u.len() == 2 && (u[0] == 'G' || u[0] == 'g') && (u[1] == 'B' || u[1] == 'b') {
        Some(1024int * 1024 * 1024)
    } else {
        None
    }
}

/// Every character of `[a, b)` is a decimal digit.
pub open spec fn digits_only(s: Seq<char>, a: int, b: int) -> bool {
    forall|k: int| a <= k < b ==> is_digit_char(#[trigger] s[k])
}

/// The value of the digit run `[a, b)`.
pub open spec fn digits_val(s: Seq<char>, a: int, b: int) -> int
    decreases b - a,
{
    if b <= a {
        0
    } else {
        digits_val(s, a, b - 1) * 10 + digit_value(s[b - 1])
    }
}

/// Ten to the `d`th.
pub open spec fn pow10(d: int) -> int
    decreases d,
{
    if d <= 0 {
        1
    } else {
        10 * pow10(d - 1)
    }
}

/// A well-formed unsigned decimal number over `[a, b)`: digits with at
/// most one dot, at least one digit in all, and a fraction short
/// enough to evaluate exactly.
pub open spec fn num_valid(s: Seq<char>, a: int, b: int) -> bool {
    let dot = first_dot_from(s, a, b);
    &&& digits_only(s, a, dot)
    &&& b - a >= 1
    &&& if dot == b {
        true
    } else {
        &&& digits_only(s, dot + 1, b)
        &&& b - a >= 2
        &&& b - dot - 1 <= 19  // fraction digits the parser accepts
    }
}

/// The whole and fraction parts of a number over `[a, b)`: the value
/// of the digits before the dot, the value of those after it, and how
/// many those are.
pub open spec fn num_parts(s: Seq<char>, a: int, b: int) -> (int, int, int) {
    let dot = first_dot_from(s, a, b);
    if dot == b {
        (digits_val(s, a, b), 0, 0)
    } else {
        (digits_val(s, a, dot), digits_val(s, dot + 1, b), b - dot - 1)
    }
}

/// The bytes a parsed number denotes under a multiplier: the whole
/// part times the multiplier, plus the fraction's share rounded down,
/// capped at the largest `u64`.
pub open spec fn num_bytes(s: Seq<char>, a: int, b: int, mult: int) -> int {
    let (ip, fd, d) = num_parts(s, a, b);
    let v = ip * mult + (fd * mult) / pow10(d);
    if v > u64::MAX {
        u64::MAX as int
    } else {
        v
    }
}

/// What parsing a size string yields.
pub enum SizeOutcome {
    /// A well-formed size of this many bytes.
    Value(int),
    /// The suffix is not a recognized unit.
    BadUnit,
    /// The number part is not a well-formed decimal number.
    BadNumber,
    /// The number is negative.
    Negative,
}

/// The meaning of a size string: trim it, split at the first letter,
/// read the suffix as a unit and the front as a decimal number, and
/// take their product.  A minus sign on anything but zero is refused.
pub open spec fn classify_size(s: Seq<char>) -> SizeOutcome {
    let t = trimmed(s);
    let fa = first_alpha_from(t, 0);
    match unit_mult(t.subrange(fa, t.len() as int)) {
        None => SizeOutcome::BadUnit,
        Some(mult) => {
            let ne = trim_end_from(t, fa);
            if ne == 0 {
                SizeOutcome::BadNumber
            } else if t[0] == '-' {
                if num_valid(t, 1, ne) {
                    let (ip, fd, _d) = num_parts(t, 1, ne);
                    if ip == 0 && fd == 0 {
                        SizeOutcome::Value(0)
                    } else {
                        SizeOutcome::Negative
                    }
                } else {
                    SizeOutcome::BadNumber
                }
            } else {
                let st: int = if t[0] == '+' {
                    1
                } else {
                    0
                };
                if num_valid(t, st, ne) {
                    SizeOutcome::Value(num_bytes(t, st, ne, mult))
                } else {
                    SizeOutcome::BadNumber
                }
            }
        },
    }
}

// ---------------------------------------------------------------------
// Bounds on digit runs
// ---------------------------------------------------------------------

proof fn lemma_digits_val_nonneg(s: Seq<char>, a: int, b: int)
    ensures
        digits_val(s, a, b) >= 0,
    decreases b - a,
{
    if b > a {
        lemma_digits_val_nonneg(s, a, b - 1);
    }
}

proof fn lemma_digits_val_bound(s: Seq<char>, a: int, b: int)
    requires
        a <= b,
    ensures
        0 <= digits_val(s, a, b) < pow10(b - a),
    decreases b - a,
{
    if b > a {
        lemma_digits_val_bound(s, a, b - 1);
        assert(digits_val(s, a, b) == digits_val(s, a, b - 1) * 10 + digit_value(s[b - 1]));
        assert(digit_value(s[b - 1]) <= 9);
    }
}

proof fn lemma_pow10_pos(d: int)
    ensures
        pow10(d) >= 1,
    decreases d,
{
    if d > 0 {
        lemma_pow10_pos(d - 1);
    }
}

proof fn lemma_pow10_mono(a: int, b: int)
    requires
        a <= b,
    ensures
        pow10(a) <= pow10(b),
    decreases b - a,
{
    if a < b {
        lemma_pow10_mono(a, b - 1);
        lemma_pow10_pos(b - 1);
    }
}

proof fn lemma_pow10_bounds(d: int)
    requires
        0 <= d <= 19,
    ensures
        1 <= pow10(d) <= 10000000000000000000,
{
    lemma_pow10_pos(d);
    lemma_pow10_mono(d, 19);
    reveal_with_fuel(pow10, 21);
    assert(pow10(19) == 10000000000000000000);
}

// ---------------------------------------------------------------------
// The parser
// ---------------------------------------------------------------------

/// Whether a character is ASCII whitespace.
fn is_space(c: char) -> (r: bool)
    ensures
        r == is_space_char(c),
{
    c == ' ' || c == '\t' || c == '\n' || c == '\r'
}

/// Whether a character is an ASCII letter.
fn is_alpha(c: char) -> (r: bool)
    ensures
        r == is_alpha_char(c),
{
    let u = c as u32;
    (97 <= u && u <= 122) || (65 <= u && u <= 90)
}

/// Scans the digit run `[from, to)`, returning its value saturated at
/// `u64::MAX + 1`, or nothing when a non-digit stands in it.
fn scan_digits(t: &str, from: usize, to: usize) -> (r: Option<u128>)
    requires
        from <= to <= t@.len(),
    ensures
        match r {
            Some(v) => {
                &&& digits_only(t@, from as int, to as int)
                &&& first_dot_from(t@, from as int, to as int) == to as int
                &&& v <= u64::MAX as u128 + 1
                &&& (v <= u64::MAX as u128 ==> v as int == digits_val(t@, from as int, to as int))
                &&& (v > u64::MAX as u128 ==> digits_val(t@, from as int, to as int) > u64::MAX)
            },
            None => !digits_only(t@, from as int, to as int) || first_dot_from(
                t@,
                from as int,
                to as int,
            ) != to as int,
        },
{
    let mut i = from;
    let mut acc: u128 = 0;
    let max: u128 = 18446744073709551615u128;
    while i < to
        invariant
            from <= i <= to <= t@.len(),
            digits_only(t@, from as int, i as int),
            first_dot_from(t@, from as int, i as int) == i as int,
            acc <= max + 1,
            acc <= max ==> acc as int == digits_val(t@, from as int, i as int),
            acc > max ==> digits_val(t@, from as int, i as int) > max,
            max == u64::MAX as u128,
        decreases to - i,
    {
        let c = t.get_char(i);
        let d = match crate::strutil::char_digit_value(c) {
            Some(d) => d,
            None => {
                proof {
                    assert(!is_digit_char(t@[i as int]));
                }
                return None;
            },
        };
        proof {
            assert(t@[i as int] != '.');
            lemma_digits_val_nonneg(t@, from as int, i as int);
            assert(digits_val(t@, from as int, i as int + 1) == digits_val(
                t@,
                from as int,
                i as int,
            ) * 10 + digit_value(t@[i as int]));
            assert(first_dot_from(t@, from as int, i as int + 1) == i as int + 1) by {
                lemma_first_dot_extend(t@, from as int, i as int);
            }
        }
        if acc > max / 10 || (acc == max / 10 && d as u128 > max % 10) {
            // the run has outgrown u64: keep scanning, keep the cap
            proof {
                assert(digits_val(t@, from as int, i as int + 1) > max);
            }
            acc = max + 1;
        } else if acc == max + 1 {
            proof {
                assert(digits_val(t@, from as int, i as int) * 10 + digit_value(t@[i as int])
                    > max);
            }
        } else {
            acc = acc * 10 + d as u128;
        }
        i = i + 1;
    }
    Some(acc)
}

proof fn lemma_first_dot_extend(s: Seq<char>, from: int, i: int)
    requires
        0 <= from <= i < s.len(),
        first_dot_from(s, from, i) == i,
        s[i] != '.',
    ensures
        first_dot_from(s, from, i + 1) == i + 1,
    decreases i - from,
{
    if from < i {
        assert(s[from] != '.') by {
            if s[from] == '.' {
                assert(first_dot_from(s, from, i) == from);
            }
        }
        lemma_first_dot_extend(s, from + 1, i);
    } else {
        assert(first_dot_from(s, i + 1, i + 1) == i + 1);
    }
}

/// Parses a file size: a decimal number with an optional unit suffix
/// (`KB`, `MB`, `GB`, case-insensitive; bytes without one), trimmed
/// of surrounding whitespace.  Returns the size in bytes, rounding a
/// fractional byte down; a malformed number or unknown unit or a
/// negative size is an error.
#[verifier::rlimit(60)]
pub fn parse_file_size(size_str: &str) -> (r: Result<u64, String>)
    ensures
        match r {
            Ok(v) => classify_size(size_str@) == SizeOutcome::Value(v as int),
            Err(_) => !(classify_size(size_str@) matches SizeOutcome::Value(_)),
        },
{
    let ghost s = size_str@;
    let n = size_str.unicode_len();
    // trim the surrounding whitespace
    let mut a: usize = 0;
    while a < n && is_space(size_str.get_char(a))
        invariant
            0 <= a <= n,
            n == s.len(),
            s == size_str@,
            trim_start_from(s, 0) == trim_start_from(s, a as int),
        decreases n - a,
    {
        a = a + 1;
    }
    let mut b: usize = n;
    while b > 0 && is_space(size_str.get_char(b - 1))
        invariant
            0 <= b <= n,
            n == s.len(),
            s == size_str@,
            trim_end_from(s, n as int) == trim_end_from(s, b as int),
        decreases b,
    {
        b = b - 1;
    }
    proof {
        assert(trim_start_from(s, a as int) == a as int || a == n);
        assert(trim_start_from(s, 0) == a as int || (a == n && trim_start_from(s, 0) == n as int));
        assert(trim_end_from(s, b as int) == b as int || b == 0);
    }
    if a >= b {
        proof {
            assert(trimmed(s) =~= Seq::<char>::empty());
            assert(first_alpha_from(trimmed(s), 0) == 0);
            assert(trimmed(s).subrange(0, 0) =~= Seq::<char>::empty());
            assert(unit_mult(Seq::<char>::empty()) == Some(1int));
            assert(trim_end_from(trimmed(s), 0) == 0);
            assert(classify_size(s) == SizeOutcome::BadNumber);
        }
        return Err(String::from_str("Invalid size number"));
    }
    let t = size_str.substring_char(a, b);
    let ghost tv = trimmed(s);
    proof {
        assert(t@ == s.subrange(a as int, b as int));
        assert(t@ == tv);
    }
    let tlen = b - a;
    proof {
        assert(tlen == tv.len());
    }
    // find the unit suffix: everything from the first letter on
    let mut fa: usize = 0;
    while fa < tlen && !is_alpha(t.get_char(fa))
        invariant
            0 <= fa <= tlen,
            tlen == t@.len(),
            t@ == tv,
            first_alpha_from(tv, 0) == first_alpha_from(tv, fa as int),
        decreases tlen - fa,
    {
        fa = fa + 1;
    }
    proof {
        assert(first_alpha_from(tv, 0) == fa as int);
    }
    let mult: u64 = if fa == tlen {
        proof {
            assert(tv.subrange(fa as int, tv.len() as int) =~= Seq::<char>::empty());
        }
        1
    } else if tlen - fa == 2 {
        let c0 = t.get_char(fa);
        let c1 = t.get_char(fa + 1);
        let good_b = c1 == 'B' || c1 == 'b';
        if (c0 == 'K' || c0 == 'k') && good_b {
            1024
        } else if (c0 == 'M' || c0 == 'm') && good_b {
            1024 * 1024
        } else if (c0 == 'G' || c0 == 'g') && good_b {
            1024 * 1024 * 1024
        } else {
            proof {
                let u = tv.subrange(fa as int, tv.len() as int);
                assert(u[0] == tv[fa as int] && u[1] == tv[fa as int + 1]);
                assert(unit_mult(u) is None);
            }
            return Err(String::from_str("Invalid size unit: supported units are KB, MB, GB"));
        }
    } else {
        proof {
            let u = tv.subrange(fa as int, tv.len() as int);
            assert(u.len() != 0 && u.len() != 2);
            assert(unit_mult(u) is None);
        }
        return Err(String::from_str("Invalid size unit: supported units are KB, MB, GB"));
    };
    proof {
        let u = tv.subrange(fa as int, tv.len() as int);
        if fa < tlen {
            assert(u[0] == tv[fa as int]);
            if tlen - fa == 2 {
                assert(u[1] == tv[fa as int + 1]);
            }
        }
        assert(unit_mult(u) == Some(mult as int));
    }
    // strip the spaces between the number and the unit
    let mut ne: usize = fa;
    while ne > 0 && is_space(t.get_char(ne - 1))
        invariant
            0 <= ne <= fa <= tlen,
            tlen == t@.len(),
            t@ == tv,
            trim_end_from(tv, fa as int) == trim_end_from(tv, ne as int),
        decreases ne,
    {
        ne = ne - 1;
    }
    proof {
        assert(trim_end_from(tv, fa as int) == ne as int);
    }
    if ne == 0 {
        return Err(String::from_str("Invalid size number"));
    }
    // the sign, then the digits around the dot
    let first = t.get_char(0);
    let neg = first == '-';
    let st: usize = if neg || first == '+' {
        1
    } else {
        0
    };
    // locate the dot
    let mut dot: usize = st;
    while dot < ne && t.get_char(dot) != '.'
        invariant
            st <= dot <= ne,
            ne <= tlen == t@.len(),
            t@ == tv,
            forall|k: int| st <= k < dot ==> tv[k] != '.',
        decreases ne - dot,
    {
        dot = dot + 1;
    }
    proof {
        lemma_first_dot_scan(tv, st as int, dot as int, ne as int);
    }
    let ip_acc = match scan_digits(t, st, dot) {
        Some(v) => v,
        None => {
            proof {
                lemma_num_invalid_int(tv, st as int, dot as int, ne as int);
            }
            return Err(String::from_str("Invalid size number"));
        },
    };
    let (fd_acc, d): (u128, usize) = if dot == ne {
        (0, 0)
    } else {
        if ne - dot - 1 > 19 {
            proof {
                assert(!num_valid(tv, st as int, ne as int));
            }
            return Err(String::from_str("Invalid size number"));
        }
        match scan_digits(t, dot + 1, ne) {
            Some(v) => (v, ne - dot - 1),
            None => {
                proof {
                    lemma_num_invalid_frac(tv, st as int, dot as int, ne as int);
                }
                return Err(String::from_str("Invalid size number"));
            },
        }
    };
    if ne - st < 1 || (dot != ne && ne - st < 2) {
        proof {
            assert(!num_valid(tv, st as int, ne as int));
        }
        return Err(String::from_str("Invalid size number"));
    }
    proof {
        assert(num_valid(tv, st as int, ne as int));
    }
    if neg {
        if ip_acc == 0 && fd_acc == 0 {
            proof {
                assert(num_parts(tv, st as int, ne as int).0 == 0);
                assert(num_parts(tv, st as int, ne as int).1 == 0);
                assert(classify_size(s) == SizeOutcome::Value(0));
            }
            return Ok(0);
        }
        proof {
            assert(num_parts(tv, st as int, ne as int).0 != 0 || num_parts(
                tv,
                st as int,
                ne as int,
            ).1 != 0) by {
                lemma_digits_val_nonneg(tv, st as int, first_dot_from(tv, st as int, ne as int));
                if dot as int != ne as int {
                    lemma_digits_val_nonneg(tv, dot as int + 1, ne as int);
                }
            }
            assert(classify_size(s) == SizeOutcome::Negative);
        }
        return Err(String::from_str("File size cannot be negative"));
    }
    // assemble: whole part times the multiplier, plus the fraction's
    // share rounded down, capped at u64::MAX
    let max64: u128 = 18446744073709551615u128;
    if ip_acc > max64 {
        proof {
            let parts = num_parts(tv, st as int, ne as int);
            assert(parts.0 > u64::MAX);
            lemma_digits_val_nonneg(tv, dot as int + 1, ne as int);
            lemma_digits_val_nonneg(tv, st as int, dot as int);
            lemma_pow10_bounds(parts.2);
            assert(parts.0 * (mult as int) >= parts.0) by (nonlinear_arith)
                requires
                    parts.0 >= 0 && mult >= 1,
            ;
            assert((parts.1 * (mult as int)) / pow10(parts.2) >= 0) by {
                assert(parts.1 * (mult as int) >= 0) by (nonlinear_arith)
                    requires
                        parts.1 >= 0 && mult >= 1,
                ;
            }
            assert(classify_size(s) == SizeOutcome::Value(u64::MAX as int));
        }
        return Ok(18446744073709551615u64);
    }
    let mut p10: u128 = 1;
    let mut k: usize = 0;
    while k < d
        invariant
            0 <= k <= d <= 19,
            p10 == pow10(k as int),
            1 <= p10 <= 10000000000000000000u128,
        decreases d - k,
    {
        proof {
            lemma_pow10_bounds(k as int + 1);
        }
        p10 = p10 * 10;
        k = k + 1;
    }
    proof {
        let parts = num_parts(tv, st as int, ne as int);
        assert(parts.0 == ip_acc as int && parts.1 == fd_acc as int && parts.2 == d as int) by {
            if dot == ne {
            } else {
                assert(fd_acc <= max64 || digits_val(tv, dot as int + 1, ne as int) > u64::MAX);
                lemma_digits_val_bound(tv, dot as int + 1, ne as int);
                lemma_pow10_bounds(ne as int - dot as int - 1);
            }
        }
        if dot != ne {
            lemma_digits_val_bound(tv, dot as int + 1, ne as int);
        }
        lemma_pow10_bounds(d as int);
        assert(fd_acc < 10000000000000000000u128);
        assert((fd_acc as int) * (mult as int) <= 10000000000000000000int * 1073741824int)
            by (nonlinear_arith)
            requires
                0 <= fd_acc as int <= 10000000000000000000int,
                0 <= mult as int <= 1073741824int,
        ;
        assert((ip_acc as int) * (mult as int) <= 18446744073709551615int * 1073741824int)
            by (nonlinear_arith)
            requires
                0 <= ip_acc as int <= 18446744073709551615int,
                0 <= mult as int <= 1073741824int,
        ;
    }
    let scaled: u128 = fd_acc * (mult as u128) / p10;
    let whole: u128 = ip_acc * (mult as u128);
    let total: u128 = whole + scaled;
    proof {
        let parts = num_parts(tv, st as int, ne as int);
        assert(scaled as int == (parts.1 * (mult as int)) / pow10(parts.2));
        assert(whole as int == parts.0 * (mult as int));
    }
    if total > max64 {
        proof {
            assert(classify_size(s) == SizeOutcome::Value(u64::MAX as int));
        }
        Ok(18446744073709551615u64)
    } else {
        proof {
            assert(classify_size(s) == SizeOutcome::Value(total as int));
        }
        Ok(total as u64)
    }
}

proof fn lemma_first_dot_scan(s: Seq<char>, st: int, dot: int, ne: int)
    requires
        0 <= st <= dot <= ne <= s.len(),
        forall|k: int| st <= k < dot ==> s[k] != '.',
        dot < ne ==> s[dot] == '.',
    ensures
        first_dot_from(s, st, ne) == dot,
    decreases dot - st,
{
    if st < dot {
        lemma_first_dot_scan(s, st + 1, dot, ne);
    }
}

proof fn lemma_first_dot_range(s: Seq<char>, st: int, b: int)
    requires
        0 <= st <= b <= s.len(),
    ensures
        st <= first_dot_from(s, st, b) <= b,
        first_dot_from(s, st, b) < b ==> s[first_dot_from(s, st, b)] == '.',
    decreases b - st,
{
    if st < b && s[st] != '.' {
        lemma_first_dot_range(s, st + 1, b);
    }
}

proof fn lemma_first_dot_prefix(s: Seq<char>, st: int, b1: int, b2: int)
    requires
        0 <= st <= b1 <= b2 <= s.len(),
        first_dot_from(s, st, b2) >= b1,
    ensures
        first_dot_from(s, st, b1) == b1,
    decreases b1 - st,
{
    if st < b1 {
        assert(s[st] != '.') by {
            if s[st] == '.' {
                assert(first_dot_from(s, st, b2) == st);
            }
        }
        lemma_first_dot_prefix(s, st + 1, b1, b2);
    }
}

proof fn lemma_num_invalid_int(s: Seq<char>, st: int, dot: int, ne: int)
    requires
        0 <= st <= dot <= ne <= s.len(),
        first_dot_from(s, st, ne) == dot,
        !digits_only(s, st, dot) || first_dot_from(s, st, dot) != dot,
    ensures
        !num_valid(s, st, ne),
{
    lemma_first_dot_prefix(s, st, dot, ne);
}

proof fn lemma_num_invalid_frac(s: Seq<char>, st: int, dot: int, ne: int)
    requires
        0 <= st <= dot < ne <= s.len(),
        first_dot_from(s, st, ne) == dot,
        !digits_only(s, dot + 1, ne) || first_dot_from(s, dot + 1, ne) != ne,
    ensures
        !num_valid(s, st, ne),
{
    if first_dot_from(s, dot + 1, ne) != ne {
        lemma_first_dot_range(s, dot + 1, ne);
        let fd = first_dot_from(s, dot + 1, ne);
        assert(s[fd] == '.');
        assert(!crate::strutil::is_digit_char(s[fd]));
    }
}

} // verus!
