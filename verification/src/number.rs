//! The text of a number for the `NUMBER()` function of translations: the options of the
//! function, and the completion of a number's formatted digits — trailing zeros trimmed,
//! padding to the minimum numbers of significant, fraction and integer digits, and
//! grouping of the integer digits by thousands.
//!
//! Writing the number's value out as digits (rounding it to the maximum numbers of
//! significant or fraction digits) is done on floating point, before this module.

use vstd::prelude::*;

use vstd::string::{StrSliceExecFns, StringExecFns};

verus! {

/// Fraction digits allowed at most.
pub const MAX_FRACTION_DIGITS: i64 = 20;

/// Significant digits allowed at most.
pub const MAX_SIGNIFICANT_DIGITS: i64 = 21;

/// Minimum integer digits allowed at most.
pub const MAX_MIN_INTEGER_DIGITS: i64 = 308;

/// The options of a `NUMBER()` call, clamped to their ranges.
#[derive(Debug, Clone, Copy, PartialEq, Eq, Structural)]
pub struct NumberFormat {
    /// Separate thousands with commas.
    pub use_grouping: bool,
    /// Pad the integer part with leading zeros to this many digits (at least 1).
    pub min_integer_digits: usize,
    /// Round to at most this many fraction digits.
    pub max_fraction_digits: Option<usize>,
    /// Pad the fraction with zeros to at least this many digits.
    pub min_fraction_digits: usize,
    /// Whether significant digits were asked for; the fraction options are then unused.
    pub significant: bool,
    /// Pad to at least this many significant digits.
    pub min_significant_digits: usize,
    /// Round to at most this many significant digits, when asked for.
    pub max_significant_digits: Option<usize>,
}

/// `v` clamped to `lo..=hi`.
pub open spec fn clamp(v: i64, lo: i64, hi: i64) -> i64 {
    if v < lo {
        lo
    } else if v > hi {
        hi
    } else {
        v
    }
}

fn clamp_exec(v: i64, lo: i64, hi: i64) -> (r: i64)
    requires
        lo <= hi,
    ensures
        r == clamp(v, lo, hi),
{
    if v < lo {
        lo
    } else if v > hi {
        hi
    } else {
        v
    }
}

fn clamp_opt(v: Option<i64>, lo: i64, hi: i64) -> (r: Option<usize>)
    requires
        0 <= lo <= hi,
    ensures
        r == match v {
            Some(x) => Some(clamp(x, lo, hi) as usize),
            Option::None => Option::<usize>::None,
        },
{
    match v {
        Some(x) => Some(clamp_exec(x, lo, hi) as usize),
        Option::None => Option::None,
    }
}

/// Whether a `NUMBER()` call groups digits, from its `useGrouping` option when that is
/// given as a string: grouping is on unless the option is exactly `"false"`.
pub fn use_grouping(option: Option<&str>) -> (r: bool)
    ensures
        r == match option {
            Some(s) => s@ != "false"@,
            Option::None => true,
        },
{
    match option {
        Option::None => true,
        Some(s) => {
            proof {
                reveal_strlit("false");
            }
            let n = s.unicode_len();
            if n != 5 {
                return true;
            }
            let f = "false";
            let mut i: usize = 0;
            while i < 5
                invariant
                    option == Some(s),
                    n == 5,
                    s@.len() == 5,
                    f@ == "false"@,
                    f@.len() == 5,
                    i <= 5,
                    forall|j: int| 0 <= j < i ==> s@[j] == f@[j],
                decreases 5 - i,
            {
                let a = s.get_char(i);
                let b = f.get_char(i);
                if a != b {
                    proof {
                        assert(s@[i as int] != "false"@[i as int]);
                        assert(s@ != "false"@);
                    }
                    return true;
                }
                i += 1;
            }
            proof {
                assert(s@ =~= "false"@);
            }
            false
        },
    }
}

/// Reads the options of a `NUMBER()` call: each given option is clamped to its range
/// (`minimumIntegerDigits` to 1..=308, the fraction digits to 0..=20, the significant
/// digits to 1..=21); the minimum fraction digits are at most the maximum ones, and the
/// minimum significant digits (1 when not given) at most the maximum ones (21 when not
/// given). Significant digits take over when either of their options is given.
pub fn number_format(
    use_grouping: bool,
    min_integer_digits: Option<i64>,
    max_fraction_digits: Option<i64>,
    min_fraction_digits: Option<i64>,
    min_significant_digits: Option<i64>,
    max_significant_digits: Option<i64>,
) -> (r: NumberFormat)
    ensures
        r.use_grouping == use_grouping,
        r.min_integer_digits == match min_integer_digits {
            Some(x) => clamp(x, 1, MAX_MIN_INTEGER_DIGITS) as usize,
            Option::None => 1,
        },
        r.max_fraction_digits == match max_fraction_digits {
            Some(x) => Some(clamp(x, 0, MAX_FRACTION_DIGITS) as usize),
            Option::None => Option::<usize>::None,
        },
        ({
            let min_frac: usize = match min_fraction_digits {
                Some(x) => clamp(x, 0, MAX_FRACTION_DIGITS) as usize,
                Option::None => 0,
            };
            r.min_fraction_digits == match r.max_fraction_digits {
                Some(m) => if min_frac < m {
                    min_frac
                } else {
                    m
                },
                Option::None => min_frac,
            }
        }),
        r.significant == (min_significant_digits is Some || max_significant_digits is Some),
        r.max_significant_digits == match max_significant_digits {
            Some(x) => Some(clamp(x, 1, MAX_SIGNIFICANT_DIGITS) as usize),
            Option::None => Option::<usize>::None,
        },
        ({
            let min_sig: usize = match min_significant_digits {
                Some(x) => clamp(x, 1, MAX_SIGNIFICANT_DIGITS) as usize,
                Option::None => 1,
            };
            let max_sig: usize = match r.max_significant_digits {
                Some(m) => m,
                Option::None => MAX_SIGNIFICANT_DIGITS as usize,
            };
            r.min_significant_digits == if max_sig < min_sig {
                max_sig
            } else {
                min_sig
            }
        }),
{
    let min_int = match clamp_opt(min_integer_digits, 1, MAX_MIN_INTEGER_DIGITS) {
        Some(v) => v,
        Option::None => 1,
    };
    let max_frac = clamp_opt(max_fraction_digits, 0, MAX_FRACTION_DIGITS);
    let mut min_frac = match clamp_opt(min_fraction_digits, 0, MAX_FRACTION_DIGITS) {
        Some(v) => v,
        Option::None => 0,
    };
    if let Some(m) = max_frac {
        if m < min_frac {
            min_frac = m;
        }
    }
    let min_sig_raw = clamp_opt(min_significant_digits, 1, MAX_SIGNIFICANT_DIGITS);
    let max_sig_raw = clamp_opt(max_significant_digits, 1, MAX_SIGNIFICANT_DIGITS);
    let significant = min_sig_raw.is_some() || max_sig_raw.is_some();
    let mut min_sig = match min_sig_raw {
        Some(v) => v,
        Option::None => 1,
    };
    let max_sig = match max_sig_raw {
        Some(v) => v,
        Option::None => 21,
    };
    if max_sig < min_sig {
        min_sig = max_sig;
    }
    NumberFormat {
        use_grouping,
        min_integer_digits: min_int,
        max_fraction_digits: max_frac,
        min_fraction_digits: min_frac,
        significant,
        min_significant_digits: min_sig,
        max_significant_digits: max_sig_raw,
    }
}

/// Whether the text is in scientific notation.
pub open spec fn has_exponent(s: Seq<char>) -> bool {
    s.contains('e') || s.contains('E')
}

/// The position of the first `c` in `s` at or after `i`, or the length of `s`.
pub open spec fn find_from(s: Seq<char>, c: char, i: int) -> int
    decreases s.len() - i,
{
    if i < 0 || i >= s.len() {
        s.len() as int
    } else if s[i] == c {
        i
    } else {
        find_from(s, c, i + 1)
    }
}

/// `s` without its trailing zeros.
pub open spec fn strip_zeros(s: Seq<char>) -> Seq<char>
    decreases s.len(),
{
    if s.len() > 0 && s.last() == '0' {
        strip_zeros(s.drop_last())
    } else {
        s
    }
}

/// A number with a fraction part loses the trailing zeros of its fraction, and its
/// decimal point when nothing follows it.
pub open spec fn trim_fraction(s: Seq<char>) -> Seq<char> {
    if s.contains('.') {
        let t = strip_zeros(s);
        if t.len() > 0 && t.last() == '.' {
            t.drop_last()
        } else {
            t
        }
    } else {
        s
    }
}

/// Whether a character is an ASCII digit.
pub open spec fn is_digit(c: char) -> bool {
    '0' <= c && c <= '9'
}

/// The number of significant digits of a number's text: the digits from its first
/// non-zero digit on.
pub open spec fn sig_count(s: Seq<char>) -> nat
    decreases s.len(),
{
    if s.len() == 0 {
        0
    } else {
        let rest = sig_count(s.drop_last());
        if is_digit(s.last()) && (rest > 0 || s.last() != '0') {
            rest + 1
        } else {
            rest
        }
    }
}

/// `n` zeros.
pub open spec fn zeros(n: nat) -> Seq<char> {
    Seq::new(n, |_i: int| '0')
}

/// Pads a number's text with zeros to at least `min_sig` significant digits; a number
/// without any is written `0`, or `0.` followed by zeros.
pub open spec fn pad_significant(s: Seq<char>, min_sig: nat) -> Seq<char> {
    let cur = sig_count(s);
    if cur == 0 {
        if min_sig <= 1 {
            seq!['0']
        } else {
            seq!['0', '.'] + zeros((min_sig - 1) as nat)
        }
    } else if cur < min_sig {
        (if s.contains('.') {
            s
        } else {
            s.push('.')
        }) + zeros((min_sig - cur) as nat)
    } else {
        s
    }
}

/// The number of digits after the decimal point.
pub open spec fn fraction_len(s: Seq<char>) -> int {
    let d = find_from(s, '.', 0);
    if d < s.len() {
        s.len() - (d + 1)
    } else {
        0
    }
}

/// Pads the fraction of a number's text with zeros to at least `min_frac` digits.
pub open spec fn pad_fraction(s: Seq<char>, min_frac: nat) -> Seq<char> {
    let have = fraction_len(s);
    if min_frac > 0 && have < min_frac {
        (if s.contains('.') {
            s
        } else {
            s.push('.')
        }) + zeros((min_frac - have) as nat)
    } else {
        s
    }
}

/// Whether, in a run of `len` digits, the digit at `j` starts a group of three (counted
/// from the end) other than the first group.
pub open spec fn starts_group(len: int, j: int) -> bool {
    j > 0 && (len - j) % 3 == 0
}

/// The first `k` digits of `d`, with a comma before each digit (but the first) that
/// starts a group of three counted from the end of `d`.
pub open spec fn grouped_prefix(d: Seq<char>, k: int) -> Seq<char>
    decreases k,
{
    if k <= 0 {
        Seq::empty()
    } else {
        grouped_prefix(d, k - 1) + (if starts_group(d.len() as int, k - 1) {
            seq![',']
        } else {
            Seq::empty()
        }) + seq![d[k - 1]]
    }
}

/// The digits `d` grouped by thousands: `1234567` becomes `1,234,567`.
pub open spec fn group_thousands(d: Seq<char>) -> Seq<char> {
    grouped_prefix(d, d.len() as int)
}

/// The integer part of a number's text (before the first decimal point) padded with
/// zeros to at least `min_int` digits after its sign, grouped by thousands when asked,
/// followed by the rest of the text. A text in scientific notation is left as it is.
pub open spec fn finish_integer(t: Seq<char>, min_int: nat, grouping: bool) -> Seq<char> {
    if has_exponent(t) {
        t
    } else {
        let d = find_from(t, '.', 0);
        let int_part = t.take(d);
        let frac = t.skip(d);
        let neg = int_part.len() > 0 && int_part[0] == '-';
        let digits = if neg {
            int_part.skip(1)
        } else {
            int_part
        };
        let needed: nat = if min_int > digits.len() {
            (min_int - digits.len()) as nat
        } else {
            0
        };
        let body = zeros(needed) + digits;
        (if neg {
            seq!['-']
        } else {
            Seq::empty()
        }) + (if grouping {
            group_thousands(body)
        } else {
            body
        }) + frac
    }
}

/// The text of a number for display, from `text`, its value written out in digits
/// (rounded to the maximum significant or fraction digits, when given).
/// In significant-digit mode, a text in scientific notation is left as it is; otherwise
/// the fraction's trailing zeros are trimmed and the significant digits padded. In
/// fraction mode, the fraction's trailing zeros are trimmed when a maximum was given (a
/// text in scientific notation is otherwise left as it is) and the fraction padded.
/// Then the integer part is padded and grouped (see [`finish_integer`]).
pub open spec fn complete_digits(text: Seq<char>, f: NumberFormat) -> Seq<char> {
    if f.significant {
        if has_exponent(text) {
            text
        } else {
            finish_integer(pad_significant(trim_fraction(text), f.min_significant_digits as nat), f.min_integer_digits as nat, f.use_grouping)
        }
    } else if f.max_fraction_digits is Some {
        finish_integer(pad_fraction(trim_fraction(text), f.min_fraction_digits as nat), f.min_integer_digits as nat, f.use_grouping)
    } else if has_exponent(text) {
        text
    } else {
        finish_integer(pad_fraction(text, f.min_fraction_digits as nat), f.min_integer_digits as nat, f.use_grouping)
    }
}

proof fn lemma_find_from(s: Seq<char>, c: char, i: int)
    requires
        0 <= i <= s.len(),
    ensures
        i <= find_from(s, c, i) <= s.len(),
        find_from(s, c, i) < s.len() ==> s[find_from(s, c, i)] == c,
        forall|j: int| i <= j < find_from(s, c, i) ==> s[j] != c,
    decreases s.len() - i,
{
    if i < s.len() && s[i] != c {
        lemma_find_from(s, c, i + 1);
    }
}

proof fn lemma_find_contains(s: Seq<char>, c: char)
    ensures
        (find_from(s, c, 0) < s.len()) == s.contains(c),
{
    lemma_find_from(s, c, 0);
    if s.contains(c) {
        let j = choose|j: int| 0 <= j < s.len() && s[j] == c;
        assert(find_from(s, c, 0) <= j);
    }
}

/// The position of the first `c` in `s`, or its length.
fn find_char(s: &str, c: char) -> (r: usize)
    ensures
        r == find_from(s@, c, 0),
        r <= s@.len(),
        (r < s@.len()) == s@.contains(c),
{
    proof {
        lemma_find_from(s@, c, 0);
        lemma_find_contains(s@, c);
    }
    let n = s.unicode_len();
    let mut i: usize = 0;
    while i < n
        invariant
            n == s@.len(),
            i <= n,
            find_from(s@, c, 0) == find_from(s@, c, i as int),
        decreases n - i,
    {
        if s.get_char(i) == c {
            return i;
        }
        i += 1;
    }
    n
}

fn has_exponent_exec(s: &str) -> (r: bool)
    ensures
        r == has_exponent(s@),
{
    find_char(s, 'e') < s.unicode_len() || find_char(s, 'E') < s.unicode_len()
}

/// Appends `n` zeros.
fn push_zeros(out: &mut String, n: usize)
    ensures
        final(out)@ == old(out)@ + zeros(n as nat),
{
    let mut k: usize = 0;
    proof {
        reveal_strlit("0");
        assert(old(out)@ + zeros(0) =~= old(out)@);
    }
    while k < n
        invariant
            k <= n,
            out@ == old(out)@ + zeros(k as nat),
        decreases n - k,
    {
        out.append("0");
        proof {
            reveal_strlit("0");
            assert(old(out)@ + zeros(k as nat) + "0"@ =~= old(out)@ + zeros((k + 1) as nat));
        }
        k += 1;
    }
}

/// Trims the fraction of a number's text; see [`trim_fraction`].
fn trim_fraction_exec(s: &str) -> (r: String)
    ensures
        r@ == trim_fraction(s@),
{
    let n = s.unicode_len();
    if find_char(s, '.') >= n {
        return String::from_str(s);
    }
    let mut k = n;
    proof {
        assert(s@.take(n as int) =~= s@);
    }
    while k > 0 && s.get_char(k - 1) == '0'
        invariant
            n == s@.len(),
            k <= n,
            strip_zeros(s@) == strip_zeros(s@.take(k as int)),
        decreases k,
    {
        proof {
            assert(s@.take(k as int).drop_last() =~= s@.take(k - 1));
        }
        k -= 1;
    }
    proof {
        assert(s@.take(n as int) =~= s@);
    }
    if k > 0 && s.get_char(k - 1) == '.' {
        k -= 1;
        proof {
            assert(s@.take(k + 1).drop_last() =~= s@.take(k as int));
        }
    }
    String::from_str(s.substring_char(0, k))
}

fn sig_count_exec(s: &str) -> (r: usize)
    ensures
        r == sig_count(s@),
{
    let n = s.unicode_len();
    let mut count: usize = 0;
    let mut i: usize = 0;
    proof {
        assert(s@.take(0) =~= Seq::<char>::empty());
    }
    while i < n
        invariant
            n == s@.len(),
            i <= n,
            count == sig_count(s@.take(i as int)),
            count <= i,
        decreases n - i,
    {
        let c = s.get_char(i);
        proof {
            assert(s@.take(i + 1).drop_last() =~= s@.take(i as int));
            assert(s@.take(i + 1).last() == c);
        }
        if '0' <= c && c <= '9' && (count > 0 || c != '0') {
            count += 1;
        }
        i += 1;
    }
    proof {
        assert(s@.take(n as int) =~= s@);
    }
    count
}

/// Pads the significant digits; see [`pad_significant`].
fn pad_significant_exec(s: String, min_sig: usize) -> (r: String)
    ensures
        r@ == pad_significant(s@, min_sig as nat),
{
    proof {
        reveal_strlit("0");
        reveal_strlit("0.");
        reveal_strlit(".");
    }
    let cur = sig_count_exec(s.as_str());
    if cur == 0 {
        if min_sig <= 1 {
            String::from_str("0")
        } else {
            let mut out = String::from_str("0.");
            push_zeros(&mut out, min_sig - 1);
            out
        }
    } else if cur < min_sig {
        let mut out = s;
        let ghost before = out@;
        if find_char(out.as_str(), '.') >= out.as_str().unicode_len() {
            out.append(".");
            proof {
                assert(out@ =~= before.push('.'));
            }
        }
        push_zeros(&mut out, min_sig - cur);
        out
    } else {
        s
    }
}

/// Pads the fraction; see [`pad_fraction`].
fn pad_fraction_exec(s: String, min_frac: usize) -> (r: String)
    ensures
        r@ == pad_fraction(s@, min_frac as nat),
{
    proof {
        reveal_strlit(".");
    }
    let n = s.as_str().unicode_len();
    let d = find_char(s.as_str(), '.');
    let have = if d < n {
        n - (d + 1)
    } else {
        0
    };
    if min_frac > 0 && have < min_frac {
        let mut out = s;
        let ghost before = out@;
        if d >= n {
            out.append(".");
            proof {
                assert(out@ =~= before.push('.'));
            }
        }
        push_zeros(&mut out, min_frac - have);
        out
    } else {
        s
    }
}

proof fn lemma_grouped_plain(d: Seq<char>, k: int)
    requires
        0 <= k <= d.len(),
        forall|j: int| 0 < j < k ==> !#[trigger] starts_group(d.len() as int, j),
    ensures
        grouped_prefix(d, k) == d.take(k),
    decreases k,
{
    if k > 0 {
        lemma_grouped_plain(d, k - 1);
        assert(d.take(k - 1) + seq![d[k - 1]] =~= d.take(k));
        if k - 1 > 0 {
            assert(!starts_group(d.len() as int, k - 1));
        }
        assert(d.take(k - 1) + Seq::<char>::empty() + seq![d[k - 1]] =~= d.take(k));
    }
}

proof fn lemma_group_step(len: int, offset: int, i: int)
    requires
        len >= 0,
        offset == len % 3,
        offset <= i < len,
    ensures
        ((i - offset) > 0 && (i - offset) % 3 == 0) == (i > offset && starts_group(len, i)),
{
    assert(((len - offset) % 3 == 0)) by (nonlinear_arith)
        requires
            offset == len % 3,
            len >= 0,
    ;
    assert(((i - offset) % 3 == 0) == ((len - i) % 3 == 0)) by (nonlinear_arith)
        requires
            (len - offset) % 3 == 0,
            offset <= i,
            i < len,
    ;
}

/// Groups digits by thousands; see [`group_thousands`].
fn group_digits(d: &str) -> (r: String)
    ensures
        r@ == group_thousands(d@),
{
    let len = d.unicode_len();
    if len <= 3 {
        proof {
            lemma_grouped_plain(d@, len as int);
            assert(d@.take(len as int) =~= d@);
        }
        return String::from_str(d);
    }
    let offset = len % 3;
    let mut out = String::new();
    proof {
        reveal_strlit(",");
        assert forall|j: int| 0 < j < offset implies !#[trigger] starts_group(d@.len() as int, j) by {
            assert(((d@.len() - j) % 3 != 0)) by (nonlinear_arith)
                requires
                    offset == d@.len() % 3,
                    0 < j < offset,
            ;
        }
        lemma_grouped_plain(d@, offset as int);
    }
    if offset > 0 {
        out.append(d.substring_char(0, offset));
        out.append(",");
    }
    let mut i = offset;
    proof {
        if offset == 0 {
            assert(out@ =~= grouped_prefix(d@, 0));
        } else {
            assert(out@ =~= grouped_prefix(d@, offset as int) + seq![',']);
        }
    }
    while i < len
        invariant
            len == d@.len(),
            len > 3,
            offset == len % 3,
            offset <= i <= len,
            i == offset && offset > 0 ==> out@ == grouped_prefix(d@, i as int) + seq![','],
            !(i == offset && offset > 0) ==> out@ == grouped_prefix(d@, i as int),
        decreases len - i,
    {
        proof {
            reveal_strlit(",");
            lemma_group_step(len as int, offset as int, i as int);
        }
        let ghost before = out@;
        if i - offset > 0 && (i - offset) % 3 == 0 {
            out.append(",");
        }
        out.append(d.substring_char(i, i + 1));
        proof {
            assert(d@.subrange(i as int, i + 1) =~= seq![d@[i as int]]);
            if i == offset && offset > 0 {
                assert(out@ =~= grouped_prefix(d@, i as int) + seq![','] + seq![d@[i as int]]);
            } else if i - offset > 0 && (i - offset) % 3 == 0 {
                assert(out@ =~= grouped_prefix(d@, i as int) + seq![','] + seq![d@[i as int]]);
            } else {
                assert(out@ =~= grouped_prefix(d@, i as int) + Seq::<char>::empty() + seq![d@[i as int]]);
            }
        }
        i += 1;
    }
    out
}

/// Pads and groups the integer part; see [`finish_integer`].
fn finish_integer_exec(t: &str, min_int: usize, grouping: bool) -> (r: String)
    ensures
        r@ == finish_integer(t@, min_int as nat, grouping),
{
    if has_exponent_exec(t) {
        return String::from_str(t);
    }
    proof {
        reveal_strlit("-");
    }
    let n = t.unicode_len();
    let d = find_char(t, '.');
    let int_part = t.substring_char(0, d);
    let frac = t.substring_char(d, n);
    proof {
        assert(int_part@ =~= t@.take(d as int));
        assert(frac@ =~= t@.skip(d as int));
    }
    let il = int_part.unicode_len();
    let neg = il > 0 && int_part.get_char(0) == '-';
    let digits = if neg {
        int_part.substring_char(1, il)
    } else {
        int_part
    };
    proof {
        if neg {
            assert(digits@ =~= int_part@.skip(1));
        }
    }
    let dl = digits.unicode_len();
    let needed = if min_int > dl {
        min_int - dl
    } else {
        0
    };
    let mut body = String::new();
    push_zeros(&mut body, needed);
    body.append(digits);
    proof {
        assert(body@ =~= zeros(needed as nat) + digits@);
    }
    let body = if grouping {
        group_digits(body.as_str())
    } else {
        body
    };
    let mut out = String::new();
    if neg {
        out.append("-");
    }
    out.append(body.as_str());
    out.append(frac);
    proof {
        if neg {
            assert(out@ =~= seq!['-'] + body@ + frac@);
        } else {
            assert(out@ =~= Seq::<char>::empty() + body@ + frac@);
        }
    }
    out
}

/// The text of a number for display, from `text`: its value written out in digits,
/// rounded to the maximum significant or fraction digits of `f` when it gives them
/// (see [`complete_digits`]).
pub fn complete_number(text: &str, f: &NumberFormat) -> (r: String)
    ensures
        r@ == complete_digits(text@, *f),
{
    if f.significant {
        if has_exponent_exec(text) {
            return String::from_str(text);
        }
        let trimmed = trim_fraction_exec(text);
        let padded = pad_significant_exec(trimmed, f.min_significant_digits);
        finish_integer_exec(padded.as_str(), f.min_integer_digits, f.use_grouping)
    } else if f.max_fraction_digits.is_some() {
        let trimmed = trim_fraction_exec(text);
        let padded = pad_fraction_exec(trimmed, f.min_fraction_digits);
        finish_integer_exec(padded.as_str(), f.min_integer_digits, f.use_grouping)
    } else if has_exponent_exec(text) {
        String::from_str(text)
    } else {
        let padded = pad_fraction_exec(String::from_str(text), f.min_fraction_digits);
        finish_integer_exec(padded.as_str(), f.min_integer_digits, f.use_grouping)
    }
}

/// `s` without its commas.
pub open spec fn strip_commas(s: Seq<char>) -> Seq<char>
    decreases s.len(),
{
    if s.len() == 0 {
        Seq::empty()
    } else {
        strip_commas(s.drop_last()) + (if s.last() == ',' {
            Seq::empty()
        } else {
            seq![s.last()]
        })
    }
}

proof fn lemma_strip_commas_add(a: Seq<char>, b: Seq<char>)
    ensures
        strip_commas(a + b) == strip_commas(a) + strip_commas(b),
    decreases b.len(),
{
    if b.len() == 0 {
        assert(a + b =~= a);
        assert(strip_commas(a) + Seq::<char>::empty() =~= strip_commas(a));
    } else {
        lemma_strip_commas_add(a, b.drop_last());
        assert((a + b).drop_last() =~= a + b.drop_last());
        assert((a + b).last() == b.last());
        let tail = if b.last() == ',' {
            Seq::<char>::empty()
        } else {
            seq![b.last()]
        };
        assert(strip_commas(a) + strip_commas(b.drop_last()) + tail =~= strip_commas(a) + (strip_commas(b.drop_last()) + tail));
    }
}

proof fn lemma_grouped_prefix_digits(d: Seq<char>, k: int)
    requires
        0 <= k <= d.len(),
        !d.contains(','),
    ensures
        strip_commas(grouped_prefix(d, k)) == d.take(k),
    decreases k,
{
    if k > 0 {
        lemma_grouped_prefix_digits(d, k - 1);
        let sep = if starts_group(d.len() as int, k - 1) {
            seq![',']
        } else {
            Seq::<char>::empty()
        };
        lemma_strip_commas_add(grouped_prefix(d, k - 1), sep);
        lemma_strip_commas_add(grouped_prefix(d, k - 1) + sep, seq![d[k - 1]]);
        assert(d[k - 1] != ',') by {
            if d[k - 1] == ',' {
                assert(d.contains(','));
            }
        }
        assert(strip_commas(seq![',']) =~= Seq::<char>::empty()) by {
            assert(seq![','].drop_last() =~= Seq::<char>::empty());
            assert(strip_commas(Seq::<char>::empty()) == Seq::<char>::empty());
            assert(seq![','].last() == ',');
        }
        assert(strip_commas(seq![d[k - 1]]) =~= seq![d[k - 1]]) by {
            assert(seq![d[k - 1]].drop_last() =~= Seq::<char>::empty());
            assert(strip_commas(Seq::<char>::empty()) == Seq::<char>::empty());
            assert(seq![d[k - 1]].last() == d[k - 1]);
            assert(Seq::<char>::empty() + seq![d[k - 1]] =~= seq![d[k - 1]]);
        }
        assert(strip_commas(Seq::<char>::empty()) =~= Seq::<char>::empty());
        assert(d.take(k - 1) + Seq::<char>::empty() + seq![d[k - 1]] =~= d.take(k));
    } else {
        assert(d.take(0) =~= Seq::<char>::empty());
    }
}

/// Grouping by thousands only inserts commas: taking them out again gives back the
/// digits.
pub proof fn law_grouping_keeps_digits(d: Seq<char>)
    requires
        !d.contains(','),
    ensures
        strip_commas(group_thousands(d)) == d,
{
    lemma_grouped_prefix_digits(d, d.len() as int);
    assert(d.take(d.len() as int) =~= d);
}

proof fn lemma_find_in_suffix(a: Seq<char>, b: Seq<char>, c: char, j: int)
    requires
        0 <= j <= b.len(),
    ensures
        find_from(a + b, c, a.len() + j) == a.len() + find_from(b, c, j),
    decreases b.len() - j,
{
    if j < b.len() {
        assert((a + b)[a.len() + j] == b[j]);
        if b[j] != c {
            lemma_find_in_suffix(a, b, c, j + 1);
        }
    }
}

proof fn lemma_find_concat(a: Seq<char>, b: Seq<char>, c: char, i: int)
    requires
        0 <= i <= a.len(),
    ensures
        find_from(a + b, c, i) == if find_from(a, c, i) < a.len() {
            find_from(a, c, i)
        } else {
            a.len() + find_from(b, c, 0)
        },
    decreases a.len() - i,
{
    if i == a.len() {
        lemma_find_in_suffix(a, b, c, 0);
    } else {
        assert((a + b)[i] == a[i]);
        if a[i] != c {
            lemma_find_concat(a, b, c, i + 1);
        }
    }
}

/// Padding the fraction gives it at least the asked number of digits.
pub proof fn law_fraction_padded(s: Seq<char>, min_frac: nat)
    ensures
        fraction_len(pad_fraction(s, min_frac)) >= min_frac,
{
    let have = fraction_len(s);
    lemma_find_from(s, '.', 0);
    lemma_find_contains(s, '.');
    if min_frac > 0 && have < min_frac {
        let k = (min_frac - have) as nat;
        if s.contains('.') {
            lemma_find_concat(s, zeros(k), '.', 0);
        } else {
            lemma_find_concat(s.push('.'), zeros(k), '.', 0);
            lemma_find_from(s.push('.'), '.', 0);
            assert(find_from(s.push('.'), '.', 0) == s.len()) by {
                lemma_find_concat(s, seq!['.'], '.', 0);
                assert(s + seq!['.'] =~= s.push('.'));
                assert(find_from(seq!['.'], '.', 0) == 0);
            }
        }
    }
}

proof fn lemma_sig_count_zeros(a: Seq<char>, k: nat)
    requires
        sig_count(a) > 0,
    ensures
        sig_count(a + zeros(k)) == sig_count(a) + k,
    decreases k,
{
    if k == 0 {
        assert(a + zeros(0) =~= a);
    } else {
        lemma_sig_count_zeros(a, (k - 1) as nat);
        let t = a + zeros(k);
        assert(t.drop_last() =~= a + zeros((k - 1) as nat));
        assert(t.last() == '0');
    }
}

/// Padding the significant digits of a non-zero number gives it at least the asked
/// number of them.
pub proof fn law_significant_padded(s: Seq<char>, min_sig: nat)
    requires
        sig_count(s) > 0,
    ensures
        sig_count(pad_significant(s, min_sig)) >= min_sig,
{
    let cur = sig_count(s);
    if cur < min_sig {
        let base = if s.contains('.') {
            s
        } else {
            s.push('.')
        };
        assert(sig_count(base) == cur) by {
            if !s.contains('.') {
                assert(s.push('.').drop_last() =~= s);
            }
        }
        lemma_sig_count_zeros(base, (min_sig - cur) as nat);
    }
}

/// Whether a text is a number written out in digits: digits and decimal points, with a
/// minus sign only in front.
pub open spec fn is_digit_text(s: Seq<char>) -> bool {
    forall|i: int| 0 <= i < s.len() ==> is_digit(#[trigger] s[i]) || s[i] == '.' || (i == 0 && s[i] == '-')
}

/// The number of digits in a text.
pub open spec fn digit_count(s: Seq<char>) -> nat
    decreases s.len(),
{
    if s.len() == 0 {
        0
    } else {
        digit_count(s.drop_last()) + if is_digit(s.last()) {
            1nat
        } else {
            0nat
        }
    }
}

/// The integer part of a number's text: what comes before its first decimal point.
pub open spec fn integer_part(s: Seq<char>) -> Seq<char> {
    s.take(find_from(s, '.', 0))
}

proof fn lemma_digit_count_add(a: Seq<char>, b: Seq<char>)
    ensures
        digit_count(a + b) == digit_count(a) + digit_count(b),
    decreases b.len(),
{
    if b.len() == 0 {
        assert(a + b =~= a);
    } else {
        lemma_digit_count_add(a, b.drop_last());
        assert((a + b).drop_last() =~= a + b.drop_last());
        assert((a + b).last() == b.last());
    }
}

proof fn lemma_digit_count_all(s: Seq<char>)
    requires
        forall|i: int| 0 <= i < s.len() ==> is_digit(#[trigger] s[i]),
    ensures
        digit_count(s) == s.len(),
    decreases s.len(),
{
    if s.len() > 0 {
        assert forall|i: int| 0 <= i < s.drop_last().len() implies is_digit(#[trigger] s.drop_last()[i]) by {
            assert(s.drop_last()[i] == s[i]);
        }
        lemma_digit_count_all(s.drop_last());
        assert(is_digit(s[s.len() - 1]));
    }
}

proof fn lemma_no_dot_find(s: Seq<char>)
    requires
        forall|i: int| 0 <= i < s.len() ==> #[trigger] s[i] != '.',
    ensures
        find_from(s, '.', 0) == s.len(),
{
    lemma_find_from(s, '.', 0);
}

proof fn lemma_grouped_digits(d: Seq<char>, k: int)
    requires
        0 <= k <= d.len(),
        forall|i: int| 0 <= i < d.len() ==> is_digit(#[trigger] d[i]),
    ensures
        digit_count(grouped_prefix(d, k)) == k,
        forall|i: int| 0 <= i < grouped_prefix(d, k).len() ==> #[trigger] grouped_prefix(d, k)[i] != '.',
    decreases k,
{
    if k > 0 {
        lemma_grouped_digits(d, k - 1);
        let g = grouped_prefix(d, k - 1);
        let sep = if starts_group(d.len() as int, k - 1) {
            seq![',']
        } else {
            Seq::<char>::empty()
        };
        let last = seq![d[k - 1]];
        lemma_digit_count_add(g, sep);
        lemma_digit_count_add(g + sep, last);
        assert(digit_count(Seq::<char>::empty()) == 0);
        assert(digit_count(sep) == 0) by {
            if sep.len() > 0 {
                assert(sep.drop_last() =~= Seq::<char>::empty());
                assert(sep.last() == ',');
            }
        }
        assert(digit_count(last) == 1) by {
            assert(last.drop_last() =~= Seq::<char>::empty());
            assert(last.last() == d[k - 1]);
            assert(is_digit(d[k - 1]));
        }
        let h = g + sep + last;
        assert(grouped_prefix(d, k) == h);
        assert forall|i: int| 0 <= i < h.len() implies #[trigger] h[i] != '.' by {
            if i < g.len() {
                assert(h[i] == g[i]);
            } else if i < g.len() + sep.len() {
                assert(h[i] == ',');
            } else {
                assert(h[i] == d[k - 1]);
                assert(is_digit(d[k - 1]));
            }
        }
    }
}

proof fn lemma_strip_zeros_prefix(s: Seq<char>)
    ensures
        strip_zeros(s).len() <= s.len(),
        strip_zeros(s) == s.take(strip_zeros(s).len() as int),
    decreases s.len(),
{
    if s.len() > 0 && s.last() == '0' {
        lemma_strip_zeros_prefix(s.drop_last());
        assert(s.drop_last().take(strip_zeros(s).len() as int) =~= s.take(strip_zeros(s).len() as int));
    } else {
        assert(s.take(s.len() as int) =~= s);
    }
}

proof fn lemma_prefix_digit_text(s: Seq<char>, n: int)
    requires
        is_digit_text(s),
        0 <= n <= s.len(),
    ensures
        is_digit_text(s.take(n)),
{
    assert forall|i: int| 0 <= i < s.take(n).len() implies is_digit(#[trigger] s.take(n)[i]) || s.take(n)[i] == '.' || (i == 0
        && s.take(n)[i] == '-') by {
        assert(s.take(n)[i] == s[i]);
    }
}

proof fn lemma_trim_fraction_digit_text(s: Seq<char>)
    requires
        is_digit_text(s),
    ensures
        is_digit_text(trim_fraction(s)),
{
    if s.contains('.') {
        lemma_strip_zeros_prefix(s);
        let t = strip_zeros(s);
        lemma_prefix_digit_text(s, t.len() as int);
        if t.len() > 0 && t.last() == '.' {
            lemma_prefix_digit_text(t, t.len() - 1);
            assert(t.drop_last() =~= t.take(t.len() - 1));
        }
    }
}

proof fn lemma_padded_digit_text(s: Seq<char>, k: nat)
    requires
        is_digit_text(s),
    ensures
        is_digit_text(s + zeros(k)),
        is_digit_text(s.push('.') + zeros(k)),
{
    let a = s + zeros(k);
    assert forall|i: int| 0 <= i < a.len() implies is_digit(#[trigger] a[i]) || a[i] == '.' || (i == 0 && a[i] == '-') by {
        if i < s.len() {
            assert(a[i] == s[i]);
        } else {
            assert(a[i] == '0');
        }
    }
    let b = s.push('.') + zeros(k);
    assert forall|i: int| 0 <= i < b.len() implies is_digit(#[trigger] b[i]) || b[i] == '.' || (i == 0 && b[i] == '-') by {
        if i < s.len() {
            assert(b[i] == s[i]);
        } else if i == s.len() {
            assert(b[i] == '.');
        } else {
            assert(b[i] == '0');
        }
    }
}

proof fn lemma_pad_digit_text(s: Seq<char>, m: nat)
    requires
        is_digit_text(s),
    ensures
        is_digit_text(pad_significant(s, m)),
        is_digit_text(pad_fraction(s, m)),
{
    lemma_padded_digit_text(s, (m - sig_count(s)) as nat);
    lemma_padded_digit_text(s, (m - fraction_len(s)) as nat);
    if sig_count(s) == 0 {
        let z = seq!['0'];
        assert(is_digit_text(z)) by {
            assert forall|i: int| 0 <= i < z.len() implies is_digit(#[trigger] z[i]) || z[i] == '.' || (i == 0 && z[i] == '-') by {}
        }
        lemma_padded_digit_text(z, (m - 1) as nat);
        assert(seq!['0', '.'] =~= z.push('.'));
    }
}

proof fn lemma_finish_integer_digits(t: Seq<char>, m: nat, g: bool)
    requires
        is_digit_text(t),
    ensures
        digit_count(integer_part(finish_integer(t, m, g))) >= m,
{
    assert(!has_exponent(t)) by {
        if t.contains('e') {
            let i = choose|i: int| 0 <= i < t.len() && t[i] == 'e';
            assert(is_digit(t[i]) || t[i] == '.' || t[i] == '-');
        }
        if t.contains('E') {
            let i = choose|i: int| 0 <= i < t.len() && t[i] == 'E';
            assert(is_digit(t[i]) || t[i] == '.' || t[i] == '-');
        }
    }
    let d = find_from(t, '.', 0);
    lemma_find_from(t, '.', 0);
    let int_part = t.take(d);
    let frac = t.skip(d);
    let neg = int_part.len() > 0 && int_part[0] == '-';
    let digits = if neg {
        int_part.skip(1)
    } else {
        int_part
    };
    assert forall|i: int| 0 <= i < digits.len() implies is_digit(#[trigger] digits[i]) by {
        if neg {
            assert(digits[i] == t[i + 1]);
            assert(t[i + 1] != '.');
        } else {
            assert(digits[i] == t[i]);
            assert(t[i] != '.');
            if i == 0 {
                assert(int_part[0] == t[0]);
            }
        }
    }
    let needed: nat = if m > digits.len() {
        (m - digits.len()) as nat
    } else {
        0
    };
    let body = zeros(needed) + digits;
    assert forall|i: int| 0 <= i < body.len() implies is_digit(#[trigger] body[i]) by {
        if i < needed {
            assert(body[i] == '0');
        } else {
            assert(body[i] == digits[i - needed]);
        }
    }
    let gr = if g {
        group_thousands(body)
    } else {
        body
    };
    if g {
        lemma_grouped_digits(body, body.len() as int);
    } else {
        lemma_digit_count_all(body);
        assert forall|i: int| 0 <= i < gr.len() implies #[trigger] gr[i] != '.' by {
            assert(is_digit(body[i]));
        }
    }
    assert(digit_count(gr) == body.len());
    let sign = if neg {
        seq!['-']
    } else {
        Seq::<char>::empty()
    };
    let head = sign + gr;
    assert forall|i: int| 0 <= i < head.len() implies #[trigger] head[i] != '.' by {
        if i < sign.len() {
            assert(head[i] == '-');
        } else {
            assert(head[i] == gr[i - sign.len()]);
        }
    }
    lemma_no_dot_find(head);
    let r = head + frac;
    assert(finish_integer(t, m, g) == r);
    lemma_find_concat(head, frac, '.', 0);
    assert(find_from(frac, '.', 0) == 0) by {
        if frac.len() > 0 {
            assert(frac[0] == t[d]);
        }
    }
    assert(integer_part(r) =~= head);
    lemma_digit_count_add(sign, gr);
    assert(digit_count(Seq::<char>::empty()) == 0);
    assert(digit_count(sign) == 0) by {
        if neg {
            assert(sign.drop_last() =~= Seq::<char>::empty());
            assert(sign.last() == '-');
        }
    }
}

/// Whatever the format, the integer part of a completed number (before its decimal
/// point) holds at least the format's minimum number of integer digits, in fraction mode
/// and in significant-digit mode alike, for any number written out in digits.
pub proof fn law_integer_digits_padded(text: Seq<char>, f: NumberFormat)
    requires
        is_digit_text(text),
    ensures
        digit_count(integer_part(complete_digits(text, f))) >= f.min_integer_digits,
{
    assert(!has_exponent(text)) by {
        if text.contains('e') {
            let i = choose|i: int| 0 <= i < text.len() && text[i] == 'e';
            assert(is_digit(text[i]) || text[i] == '.' || text[i] == '-');
        }
        if text.contains('E') {
            let i = choose|i: int| 0 <= i < text.len() && text[i] == 'E';
            assert(is_digit(text[i]) || text[i] == '.' || text[i] == '-');
        }
    }
    lemma_trim_fraction_digit_text(text);
    let m = f.min_integer_digits as nat;
    if f.significant {
        lemma_pad_digit_text(trim_fraction(text), f.min_significant_digits as nat);
        lemma_finish_integer_digits(pad_significant(trim_fraction(text), f.min_significant_digits as nat), m, f.use_grouping);
    } else if f.max_fraction_digits is Some {
        lemma_pad_digit_text(trim_fraction(text), f.min_fraction_digits as nat);
        lemma_finish_integer_digits(pad_fraction(trim_fraction(text), f.min_fraction_digits as nat), m, f.use_grouping);
    } else {
        lemma_pad_digit_text(text, f.min_fraction_digits as nat);
        lemma_finish_integer_digits(pad_fraction(text, f.min_fraction_digits as nat), m, f.use_grouping);
    }
}

proof fn lemma_strip_commas_id(s: Seq<char>)
    requires
        forall|i: int| 0 <= i < s.len() ==> #[trigger] s[i] != ',',
    ensures
        strip_commas(s) == s,
    decreases s.len(),
{
    if s.len() > 0 {
        assert forall|i: int| 0 <= i < s.drop_last().len() implies #[trigger] s.drop_last()[i] != ',' by {
            assert(s.drop_last()[i] == s[i]);
        }
        lemma_strip_commas_id(s.drop_last());
        assert(s[s.len() - 1] != ',');
        assert(s.drop_last() + seq![s.last()] =~= s);
    }
}

/// The sign that finishing keeps in front of a number's text.
spec fn finish_sign(t: Seq<char>) -> Seq<char> {
    let int_part = t.take(find_from(t, '.', 0));
    if int_part.len() > 0 && int_part[0] == '-' {
        seq!['-']
    } else {
        Seq::empty()
    }
}

/// The integer digits that finishing writes, padded to `m`, before any grouping.
spec fn finish_body(t: Seq<char>, m: nat) -> Seq<char> {
    let int_part = t.take(find_from(t, '.', 0));
    let digits = if int_part.len() > 0 && int_part[0] == '-' {
        int_part.skip(1)
    } else {
        int_part
    };
    let needed: nat = if m > digits.len() {
        (m - digits.len()) as nat
    } else {
        0
    };
    zeros(needed) + digits
}

proof fn lemma_finish_pieces(t: Seq<char>, m: nat)
    requires
        is_digit_text(t),
    ensures
        finish_integer(t, m, true) == finish_sign(t) + group_thousands(finish_body(t, m)) + t.skip(find_from(t, '.', 0)),
        finish_integer(t, m, false) == finish_sign(t) + finish_body(t, m) + t.skip(find_from(t, '.', 0)),
        forall|i: int| 0 <= i < finish_body(t, m).len() ==> is_digit(#[trigger] finish_body(t, m)[i]),
        finish_body(t, m).len() >= m,
        forall|i: int| 0 <= i < finish_sign(t).len() ==> #[trigger] finish_sign(t)[i] == '-',
        forall|i: int| 0 <= i < t.skip(find_from(t, '.', 0)).len() ==> #[trigger] t.skip(find_from(t, '.', 0))[i] != ',',
        t.skip(find_from(t, '.', 0)).len() > 0 ==> t.skip(find_from(t, '.', 0))[0] == '.',
        0 <= find_from(t, '.', 0) <= t.len(),
{
    assert(!has_exponent(t)) by {
        if t.contains('e') {
            let i = choose|i: int| 0 <= i < t.len() && t[i] == 'e';
            assert(is_digit(t[i]) || t[i] == '.' || t[i] == '-');
        }
        if t.contains('E') {
            let i = choose|i: int| 0 <= i < t.len() && t[i] == 'E';
            assert(is_digit(t[i]) || t[i] == '.' || t[i] == '-');
        }
    }
    let d = find_from(t, '.', 0);
    lemma_find_from(t, '.', 0);
    let int_part = t.take(d);
    let frac = t.skip(d);
    let neg = int_part.len() > 0 && int_part[0] == '-';
    let digits = if neg {
        int_part.skip(1)
    } else {
        int_part
    };
    assert forall|i: int| 0 <= i < digits.len() implies is_digit(#[trigger] digits[i]) by {
        if neg {
            assert(digits[i] == t[i + 1]);
            assert(t[i + 1] != '.');
        } else {
            assert(digits[i] == t[i]);
            assert(t[i] != '.');
            if i == 0 {
                assert(int_part[0] == t[0]);
            }
        }
    }
    let body = finish_body(t, m);
    let needed: nat = if m > digits.len() {
        (m - digits.len()) as nat
    } else {
        0
    };
    assert(body == zeros(needed) + digits);
    assert forall|i: int| 0 <= i < body.len() implies is_digit(#[trigger] body[i]) by {
        if i < needed {
            assert(body[i] == '0');
        } else {
            assert(body[i] == digits[i - needed]);
        }
    }
    assert forall|i: int| 0 <= i < frac.len() implies #[trigger] frac[i] != ',' by {
        assert(frac[i] == t[d + i]);
        assert(is_digit(t[d + i]) || t[d + i] == '.' || t[d + i] == '-');
    }
    if frac.len() > 0 {
        assert(frac[0] == t[d]);
    }
}

/// Finishing keeps the text's part from its decimal point on.
proof fn lemma_finish_dot(t: Seq<char>, m: nat, g: bool)
    requires
        is_digit_text(t),
    ensures
        find_from(finish_integer(t, m, g), '.', 0) + (t.len() - find_from(t, '.', 0)) == finish_integer(t, m, g).len(),
        finish_integer(t, m, g).skip(find_from(finish_integer(t, m, g), '.', 0)) == t.skip(find_from(t, '.', 0)),
{
    lemma_finish_pieces(t, m);
    let body = finish_body(t, m);
    let sign = finish_sign(t);
    let frac = t.skip(find_from(t, '.', 0));
    let gr = if g {
        group_thousands(body)
    } else {
        body
    };
    if g {
        lemma_grouped_digits(body, body.len() as int);
    }
    let head = sign + gr;
    assert forall|i: int| 0 <= i < head.len() implies #[trigger] head[i] != '.' by {
        if i < sign.len() {
            assert(head[i] == '-');
        } else {
            assert(head[i] == gr[i - sign.len()]);
            if !g {
                assert(is_digit(body[i - sign.len()]));
            }
        }
    }
    lemma_no_dot_find(head);
    let r = head + frac;
    assert(finish_integer(t, m, g) == r);
    lemma_find_concat(head, frac, '.', 0);
    assert(find_from(frac, '.', 0) == 0);
    assert(r.skip(head.len() as int) =~= frac);
}

/// Grouping while finishing only adds commas, and finishing without it adds none.
proof fn lemma_finish_commas(t: Seq<char>, m: nat)
    requires
        is_digit_text(t),
    ensures
        strip_commas(finish_integer(t, m, true)) == finish_integer(t, m, false),
        forall|i: int| 0 <= i < finish_integer(t, m, false).len() ==> #[trigger] finish_integer(t, m, false)[i] != ',',
{
    lemma_finish_pieces(t, m);
    let body = finish_body(t, m);
    let sign = finish_sign(t);
    let frac = t.skip(find_from(t, '.', 0));
    let grouped = group_thousands(body);
    assert forall|i: int| 0 <= i < sign.len() implies #[trigger] sign[i] != ',' by {}
    assert(!body.contains(',')) by {
        if body.contains(',') {
            let i = choose|i: int| 0 <= i < body.len() && body[i] == ',';
            assert(is_digit(body[i]));
        }
    }
    law_grouping_keeps_digits(body);
    lemma_strip_commas_add(sign + grouped, frac);
    lemma_strip_commas_add(sign, grouped);
    lemma_strip_commas_id(sign);
    lemma_strip_commas_id(frac);
    let no_commas = sign + body + frac;
    assert forall|i: int| 0 <= i < no_commas.len() implies #[trigger] no_commas[i] != ',' by {
        if i < sign.len() {
            assert(no_commas[i] == sign[i]);
        } else if i < sign.len() + body.len() {
            assert(no_commas[i] == body[i - sign.len()]);
            assert(is_digit(body[i - sign.len()]));
        } else {
            assert(no_commas[i] == frac[i - sign.len() - body.len()]);
        }
    }
}

/// The text that `complete_digits` finishes the integer part of, and which carries its
/// decimal point and fraction.
proof fn lemma_complete_is_finish(text: Seq<char>, f: NumberFormat)
    requires
        is_digit_text(text),
    ensures
        ({
            let t = if f.significant {
                pad_significant(trim_fraction(text), f.min_significant_digits as nat)
            } else if f.max_fraction_digits is Some {
                pad_fraction(trim_fraction(text), f.min_fraction_digits as nat)
            } else {
                pad_fraction(text, f.min_fraction_digits as nat)
            };
            &&& is_digit_text(t)
            &&& complete_digits(text, f) == finish_integer(t, f.min_integer_digits as nat, f.use_grouping)
        }),
{
    assert(!has_exponent(text)) by {
        if text.contains('e') {
            let i = choose|i: int| 0 <= i < text.len() && text[i] == 'e';
            assert(is_digit(text[i]) || text[i] == '.' || text[i] == '-');
        }
        if text.contains('E') {
            let i = choose|i: int| 0 <= i < text.len() && text[i] == 'E';
            assert(is_digit(text[i]) || text[i] == '.' || text[i] == '-');
        }
    }
    lemma_trim_fraction_digit_text(text);
    lemma_pad_digit_text(trim_fraction(text), f.min_significant_digits as nat);
    lemma_pad_digit_text(trim_fraction(text), f.min_fraction_digits as nat);
    lemma_pad_digit_text(text, f.min_fraction_digits as nat);
}

/// Grouping only adds commas: a number completed with grouping, its commas taken out, is
/// the number completed without it, which holds no comma.
pub proof fn law_grouping_only_adds_commas(text: Seq<char>, f: NumberFormat)
    requires
        is_digit_text(text),
    ensures
        strip_commas(complete_digits(text, NumberFormat { use_grouping: true, ..f })) == complete_digits(
            text,
            NumberFormat { use_grouping: false, ..f },
        ),
        !complete_digits(text, NumberFormat { use_grouping: false, ..f }).contains(','),
{
    let fg = NumberFormat { use_grouping: true, ..f };
    let fp = NumberFormat { use_grouping: false, ..f };
    lemma_complete_is_finish(text, fg);
    lemma_complete_is_finish(text, fp);
    let t = if f.significant {
        pad_significant(trim_fraction(text), f.min_significant_digits as nat)
    } else if f.max_fraction_digits is Some {
        pad_fraction(trim_fraction(text), f.min_fraction_digits as nat)
    } else {
        pad_fraction(text, f.min_fraction_digits as nat)
    };
    lemma_finish_commas(t, f.min_integer_digits as nat);
    let r = complete_digits(text, fp);
    if r.contains(',') {
        let i = choose|i: int| 0 <= i < r.len() && r[i] == ',';
        assert(r[i] != ',');
    }
}

/// In fraction mode, a completed number has at least the format's minimum number of
/// fraction digits.
pub proof fn law_fraction_digits_padded(text: Seq<char>, f: NumberFormat)
    requires
        is_digit_text(text),
        !f.significant,
    ensures
        fraction_len(complete_digits(text, f)) >= f.min_fraction_digits,
{
    lemma_complete_is_finish(text, f);
    let t = if f.max_fraction_digits is Some {
        pad_fraction(trim_fraction(text), f.min_fraction_digits as nat)
    } else {
        pad_fraction(text, f.min_fraction_digits as nat)
    };
    if f.max_fraction_digits is Some {
        law_fraction_padded(trim_fraction(text), f.min_fraction_digits as nat);
    } else {
        law_fraction_padded(text, f.min_fraction_digits as nat);
    }
    let m = f.min_integer_digits as nat;
    lemma_finish_dot(t, m, f.use_grouping);
    let r = finish_integer(t, m, f.use_grouping);
    let d = find_from(t, '.', 0);
    let e = find_from(r, '.', 0);
    lemma_find_from(t, '.', 0);
    lemma_find_from(r, '.', 0);
    assert(r.skip(e) == t.skip(d));
    if d < t.len() {
        assert(e < r.len());
    }
}

} // verus!
