//! Verified parsing of small decimal numbers and recognition of
//! floating-point number syntax, used when classifying tag strings.

use vstd::prelude::*;
use vstd::string::StrSliceExecFns;

verus! {

pub open spec fn is_digit(c: char) -> bool {
    '0' <= c && c <= '9'
}

pub open spec fn digit_of(c: char) -> int {
    c as u32 - '0' as u32
}

/// Length of the run of decimal digits starting at `i`.
pub open spec fn digits_run(s: Seq<char>, i: int) -> int
    decreases s.len() - i,
{
    if i < 0 || i >= s.len() || !is_digit(s[i]) {
        0
    } else {
        1 + digits_run(s, i + 1)
    }
}

/// The value of a string of digits, most significant first.
pub open spec fn digits_value(s: Seq<char>) -> int
    decreases s.len(),
{
    if s.len() == 0 {
        0
    } else {
        digits_value(s.drop_last()) * 10 + digit_of(s.last())
    }
}

/// The shape `u8::from_str` accepts: an optional plus sign, then digits
/// only, at least one, with a value of at most 255.
pub open spec fn is_u8_text(s: Seq<char>) -> bool {
    let b = if s.len() > 0 && s[0] == '+' {
        s.skip(1)
    } else {
        s
    };
    b.len() >= 1 && digits_run(b, 0) == b.len() && digits_value(b) <= 255
}

/// The numeric value named by such a string.
pub open spec fn spec_u8_value(s: Seq<char>) -> int {
    if s.len() > 0 && s[0] == '+' {
        digits_value(s.skip(1))
    } else {
        digits_value(s)
    }
}

proof fn lemma_digits_run_bounds(s: Seq<char>, i: int)
    requires
        0 <= i <= s.len(),
    ensures
        0 <= digits_run(s, i),
        i + digits_run(s, i) <= s.len(),
    decreases s.len() - i,
{
    if i < s.len() && is_digit(s[i]) {
        lemma_digits_run_bounds(s, i + 1);
    }
}

proof fn lemma_digits_value_nonneg(s: Seq<char>)
    requires
        forall|q: int| 0 <= q < s.len() ==> is_digit(#[trigger] s[q]),
    ensures
        digits_value(s) >= 0,
    decreases s.len(),
{
    if s.len() > 0 {
        lemma_digits_value_nonneg(s.drop_last());
        assert(forall|q: int| 0 <= q < s.len() - 1 ==> s.drop_last()[q] == s[q]);
    }
}

/// A longer digit prefix never names a smaller value.
proof fn lemma_digits_value_monotone(s: Seq<char>, i: int)
    requires
        0 <= i <= s.len(),
        forall|q: int| 0 <= q < s.len() ==> is_digit(#[trigger] s[q]),
    ensures
        digits_value(s) >= digits_value(s.take(i)),
    decreases s.len() - i,
{
    if i < s.len() {
        lemma_digits_value_monotone(s, i + 1);
        assert(s.take(i + 1).drop_last() =~= s.take(i));
        assert(s.take(i + 1).last() == s[i]);
        assert(forall|q: int| 0 <= q < i + 1 ==> s.take(i + 1)[q] == s[q]);
        lemma_digits_value_nonneg(s.take(i));
        assert(digits_value(s.take(i + 1)) == digits_value(s.take(i)) * 10 + digit_of(s[i]));
    } else {
        assert(s.take(i) =~= s);
    }
}

fn is_digit_exec(c: char) -> (r: bool)
    ensures
        r == is_digit(c),
{
    '0' <= c && c <= '9'
}

fn digits_run_exec(s: &Vec<char>, i: usize) -> (r: usize)
    requires
        i <= s@.len(),
    ensures
        r == digits_run(s@, i as int),
        i + r <= s@.len(),
{
    let n: usize = s.len();
    let mut j: usize = i;
    while j < n && is_digit_exec(s[j])
        invariant
            i <= j <= n,
            n == s@.len(),
            digits_run(s@, i as int) == (j - i) + digits_run(s@, j as int),
        decreases n - j,
    {
        j = j + 1;
    }
    proof {
        lemma_digits_run_bounds(s@, j as int);
    }
    j - i
}

/// Parses an unsigned byte as `u8::from_str` does: an optional plus sign,
/// then decimal digits whose value fits in eight bits.
pub fn parse_u8(s: &str) -> (r: Option<u8>)
    ensures
        r is Some <==> is_u8_text(s@),
        r is Some ==> r->0 as int == spec_u8_value(s@),
{
    let v = crate::text::str_to_chars(s);
    let n: usize = v.len();
    let start: usize = if n > 0 && v[0] == '+' {
        1
    } else {
        0
    };
    let ghost b = if s@.len() > 0 && s@[0] == '+' {
        s@.skip(1)
    } else {
        s@
    };
    proof {
        assert(v@.skip(start as int) =~= b);
    }
    if n == start {
        assert(b.len() == 0);
        return None;
    }
    let mut acc: u32 = 0;
    let mut i: usize = start;
    while i < n
        invariant
            start <= i <= n,
            n == v@.len(),
            v@ == s@,
            b == (if s@.len() > 0 && s@[0] == '+' {
                s@.skip(1)
            } else {
                s@
            }),
            b == v@.skip(start as int),
            b.len() == n - start,
            forall|q: int| start <= q < i ==> is_digit(#[trigger] v@[q]),
            acc <= 255,
            acc as int == digits_value(b.take(i - start)),
        decreases n - i,
    {
        let c = v[i];
        if !is_digit_exec(c) {
            proof {
                assert(b[i - start] == v@[i as int]);
                assert(!is_u8_text(s@)) by {
                    lemma_digits_run_bounds(b, 0);
                    if digits_run(b, 0) == b.len() {
                        lemma_digits_all(b, 0);
                    }
                };
            }
            return None;
        }
        let d: u32 = c as u32 - 48;
        proof {
            assert(d == digit_of(c));
            assert(d <= 9);
        }
        let next: u32 = acc * 10 + d;
        proof {
            assert(b.take(i - start + 1).drop_last() =~= b.take(i - start));
            assert(b.take(i - start + 1).last() == b[i - start]);
            assert(b[i - start] == v@[i as int]);
        }
        if next > 255 {
            proof {
                assert(!is_u8_text(s@)) by {
                    if digits_run(b, 0) == b.len() {
                        lemma_digits_all(b, 0);
                        lemma_digits_value_monotone(b, i - start + 1);
                    }
                };
            }
            return None;
        }
        acc = next;
        i = i + 1;
    }
    proof {
        assert(b.take(n - start) =~= b);
        assert(is_u8_text(s@)) by {
            lemma_all_digits_run(b, 0);
        };
    }
    Some(acc as u8)
}

/// A full digits run means every character is a digit.
proof fn lemma_digits_all(s: Seq<char>, i: int)
    requires
        0 <= i <= s.len(),
        digits_run(s, i) == s.len() - i,
    ensures
        forall|q: int| i <= q < s.len() ==> is_digit(#[trigger] s[q]),
    decreases s.len() - i,
{
    if i < s.len() {
        lemma_digits_run_bounds(s, i + 1);
        assert(is_digit(s[i]));
        lemma_digits_all(s, i + 1);
    }
}

/// All-digit strings have a full digits run.
proof fn lemma_all_digits_run(s: Seq<char>, i: int)
    requires
        0 <= i <= s.len(),
        forall|q: int| 0 <= q < s.len() ==> is_digit(#[trigger] s[q]),
    ensures
        digits_run(s, i) == s.len() - i,
    decreases s.len() - i,
{
    if i < s.len() {
        lemma_all_digits_run(s, i + 1);
    }
}

/// Lower-cases a single ASCII letter.
pub open spec fn ascii_lower(c: char) -> char {
    if 'A' <= c && c <= 'Z' {
        ((c as u32 + 32) as u32) as char
    } else {
        c
    }
}

/// The words `inf`, `infinity` and `nan`, in any letter case.
pub open spec fn is_special_float_word(b: Seq<char>) -> bool {
    let l = b.map_values(|c: char| ascii_lower(c));
    l =~= seq!['i', 'n', 'f'] || l =~= seq!['i', 'n', 'f', 'i', 'n', 'i', 't', 'y'] || l
        =~= seq!['n', 'a', 'n']
}

/// A decimal exponent suffix filling the rest of the string.
pub open spec fn is_exp_at(b: Seq<char>, i: int) -> bool {
    &&& 0 <= i < b.len()
    &&& (b[i] == 'e' || b[i] == 'E')
    &&& {
        let j = if i + 1 < b.len() && (b[i + 1] == '+' || b[i + 1] == '-') {
            i + 2
        } else {
            i + 1
        };
        digits_run(b, j) >= 1 && j + digits_run(b, j) == b.len()
    }
}

/// The decimal part of the floating-point grammar: digits with an optional
/// point and optional exponent, or a point followed by digits.
pub open spec fn is_decimal_float(b: Seq<char>) -> bool {
    let d1 = digits_run(b, 0);
    if d1 >= 1 {
        ||| d1 == b.len()
        ||| (d1 < b.len() && b[d1] == '.' && {
            let d2 = digits_run(b, d1 + 1);
            d1 + 1 + d2 == b.len() || is_exp_at(b, d1 + 1 + d2)
        })
        ||| is_exp_at(b, d1)
    } else {
        b.len() >= 2 && b[0] == '.' && {
            let d2 = digits_run(b, 1);
            d2 >= 1 && (1 + d2 == b.len() || is_exp_at(b, 1 + d2))
        }
    }
}

/// The shape `f64::from_str` accepts: an optional sign, then either one of
/// the special words or a decimal number.
pub open spec fn is_float_text(s: Seq<char>) -> bool {
    let b = if s.len() > 0 && (s[0] == '+' || s[0] == '-') {
        s.skip(1)
    } else {
        s
    };
    is_special_float_word(b) || is_decimal_float(b)
}

fn ascii_lower_exec(c: char) -> (r: char)
    ensures
        r == ascii_lower(c),
{
    let u: u32 = c as u32;
    if 65 <= u && u <= 90 {
        if let Some(l) = char::from_u32(u + 32) {
            proof {
                vstd::utf8::char_u32_cast(l, (u + 32) as u32);
            }
            l
        } else {
            c
        }
    } else {
        c
    }
}

fn is_special_float_word_exec(v: &Vec<char>, start: usize) -> (r: bool)
    requires
        start <= v@.len(),
    ensures
        r == is_special_float_word(v@.skip(start as int)),
{
    let ghost b = v@.skip(start as int);
    let n: usize = v.len();
    let len: usize = n - start;
    if len != 3 && len != 8 {
        return false;
    }
    let mut low: Vec<char> = Vec::new();
    let mut i: usize = start;
    while i < n
        invariant
            start <= i <= n,
            n == v@.len(),
            low@ == v@.skip(start as int).take(i - start).map_values(
                |c: char| ascii_lower(c),
            ),
        decreases n - i,
    {
        let ghost lowold = low@;
        low.push(ascii_lower_exec(v[i]));
        i = i + 1;
        proof {
            let t = v@.skip(start as int).take(i - start);
            assert(t.drop_last() =~= v@.skip(start as int).take(i - start - 1));
            assert(low@ =~= t.map_values(|c: char| ascii_lower(c))) by {
                assert(forall|q: int|
                    0 <= q < t.len() ==> t.map_values(|c: char| ascii_lower(c))[q]
                        == ascii_lower(t[q]));
            };
        }
    }
    proof {
        assert(b.take(b.len() as int) =~= b);
    }
    let r = if low.len() == 3 {
        (low[0] == 'i' && low[1] == 'n' && low[2] == 'f') || (low[0] == 'n' && low[1] == 'a'
            && low[2] == 'n')
    } else {
        low[0] == 'i' && low[1] == 'n' && low[2] == 'f' && low[3] == 'i' && low[4] == 'n'
            && low[5] == 'i' && low[6] == 't' && low[7] == 'y'
    };
    proof {
        let l = b.map_values(|c: char| ascii_lower(c));
        assert(low@ == l);
        if r {
            if low@.len() == 3 {
                if low@[0] == 'i' {
                    assert(l =~= seq!['i', 'n', 'f']);
                } else {
                    assert(l =~= seq!['n', 'a', 'n']);
                }
            } else {
                assert(l =~= seq!['i', 'n', 'f', 'i', 'n', 'i', 't', 'y']);
            }
        } else {
            assert(!(l =~= seq!['i', 'n', 'f']));
            assert(!(l =~= seq!['i', 'n', 'f', 'i', 'n', 'i', 't', 'y']));
            assert(!(l =~= seq!['n', 'a', 'n']));
        }
    }
    r
}

fn is_exp_at_exec(v: &Vec<char>, start: usize, i: usize) -> (r: bool)
    requires
        start <= v@.len(),
        start + i <= v@.len(),
    ensures
        r == is_exp_at(v@.skip(start as int), i as int),
{
    let ghost b = v@.skip(start as int);
    let n: usize = v.len();
    if start + i >= n {
        return false;
    }
    let c = v[start + i];
    if c != 'e' && c != 'E' {
        return false;
    }
    let j: usize = if start + i + 1 < n && (v[start + i + 1] == '+' || v[start + i + 1] == '-') {
        i + 2
    } else {
        i + 1
    };
    proof {
        crate::japanese::lemma_body_run_bounds(b, 0);
        lemma_digits_run_skip(v@, start as int, j as int);
    }
    let d: usize = digits_run_exec(v, start + j);
    d >= 1 && j + d == n - start
}

/// A digits run in a suffix equals the run at the shifted position.
proof fn lemma_digits_run_skip(s: Seq<char>, i: int, d: int)
    requires
        0 <= i,
        0 <= d,
        i + d <= s.len(),
    ensures
        digits_run(s.skip(i), d) == digits_run(s, i + d),
    decreases s.len() - i - d,
{
    if i + d < s.len() && is_digit(s[i + d]) {
        lemma_digits_run_skip(s, i, d + 1);
    }
}

/// Whether the string has the shape `f64::from_str` accepts.
pub fn is_float_text_exec(s: &str) -> (r: bool)
    ensures
        r == is_float_text(s@),
{
    let v = crate::text::str_to_chars(s);
    let n: usize = v.len();
    let start: usize = if n > 0 && (v[0] == '+' || v[0] == '-') {
        1
    } else {
        0
    };
    let ghost b = if s@.len() > 0 && (s@[0] == '+' || s@[0] == '-') {
        s@.skip(1)
    } else {
        s@
    };
    proof {
        assert(v@.skip(start as int) =~= b);
        if start == 0 {
            assert(v@.skip(0) =~= v@);
        }
    }
    if is_special_float_word_exec(&v, start) {
        return true;
    }
    proof {
        lemma_digits_run_skip(v@, start as int, 0);
    }
    let d1: usize = digits_run_exec(&v, start);
    if d1 >= 1 {
        if start + d1 == n {
            return true;
        }
        if v[start + d1] == '.' {
            proof {
                lemma_digits_run_skip(v@, start as int, d1 as int + 1);
            }
            let d2: usize = digits_run_exec(&v, start + d1 + 1);
            if d1 + 1 + d2 == n - start {
                return true;
            }
            return is_exp_at_exec(&v, start, d1 + 1 + d2);
        }
        return is_exp_at_exec(&v, start, d1);
    }
    if n - start >= 2 && v[start] == '.' {
        proof {
            lemma_digits_run_skip(v@, start as int, 1);
        }
        let d2: usize = digits_run_exec(&v, start + 1);
        if d2 >= 1 {
            if 1 + d2 == n - start {
                return true;
            }
            return is_exp_at_exec(&v, start, 1 + d2);
        }
    }
    false
}

/// Ten to the `k`.
pub open spec fn pow10(k: nat) -> int
    decreases k,
{
    if k == 0 {
        1
    } else {
        10 * pow10((k - 1) as nat)
    }
}

proof fn lemma_pow10_pos(k: nat)
    ensures
        pow10(k) >= 1,
    decreases k,
{
    if k > 0 {
        lemma_pow10_pos((k - 1) as nat);
    }
}

/// Prepending a digit raises the value by that digit at the top place.
proof fn lemma_digits_prepend(d: char, s: Seq<char>)
    requires
        is_digit(d),
        forall|q: int| 0 <= q < s.len() ==> is_digit(#[trigger] s[q]),
    ensures
        digits_value(seq![d] + s) == digit_of(d) * pow10(s.len()) + digits_value(s),
    decreases s.len(),
{
    if s.len() == 0 {
        assert(seq![d] + s =~= seq![d]);
        assert(seq![d].drop_last() =~= Seq::<char>::empty());
        assert(digits_value(Seq::<char>::empty()) == 0);
        assert(digits_value(seq![d]) == digit_of(d));
    } else {
        assert((seq![d] + s).drop_last() =~= seq![d] + s.drop_last());
        assert(forall|q: int| 0 <= q < s.len() - 1 ==> s.drop_last()[q] == s[q]);
        lemma_digits_prepend(d, s.drop_last());
        assert((seq![d] + s).last() == s.last());
        assert(digits_value(seq![d] + s) == digits_value(seq![d] + s.drop_last()) * 10
            + digit_of(s.last()));
        assert((digit_of(d) * pow10((s.len() - 1) as nat) + digits_value(s.drop_last())) * 10
            == digit_of(d) * pow10(s.len()) + digits_value(s.drop_last()) * 10) by {
            assert(pow10(s.len()) == 10 * pow10((s.len() - 1) as nat));
            assert((digit_of(d) * pow10((s.len() - 1) as nat) + digits_value(s.drop_last()))
                * 10 == digit_of(d) * (pow10((s.len() - 1) as nat) * 10) + digits_value(
                s.drop_last(),
            ) * 10) by (nonlinear_arith);
        };
    }
}

/// The decimal digits of `n`, most significant first, without a leading
/// zero.
pub fn u64_to_dec(n: u64) -> (r: Vec<char>)
    ensures
        r@.len() >= 1,
        forall|q: int| 0 <= q < r@.len() ==> is_digit(#[trigger] r@[q]),
        digits_value(r@) == n as int,
        r@[0] != '0' || r@.len() == 1,
{
    if n == 0 {
        let mut out: Vec<char> = Vec::new();
        out.push('0');
        proof {
            assert(out@.drop_last() =~= Seq::<char>::empty());
            assert(digits_value(Seq::<char>::empty()) == 0);
            assert(digits_value(out@) == digit_of('0'));
        }
        return out;
    }
    let mut tmp: Vec<char> = Vec::new();
    let mut m: u64 = n;
    proof {
        assert(tmp@.reverse() =~= Seq::<char>::empty());
        assert(digits_value(Seq::<char>::empty()) == 0);
    }
    while m > 0
        invariant
            forall|q: int| 0 <= q < tmp@.len() ==> is_digit(#[trigger] tmp@[q]),
            digits_value(tmp@.reverse()) + m * pow10(tmp@.len() as nat) == n as int,
            m == 0 ==> tmp@.len() >= 1,
            tmp@.len() >= 1 ==> tmp@[tmp@.len() - 1] == tmp@.last(),
            m == 0 ==> digit_of(tmp@.last()) >= 1,
            m > 0 || tmp@.len() >= 1,
        decreases m,
    {
        let ghost tprev = tmp@;
        let ghost mprev = m as int;
        let d8: u64 = m % 10;
        let c = dec_digit_char(d8 as u8);
        tmp.push(c);
        m = m / 10;
        proof {
            assert(tmp@.reverse() =~= seq![c] + tprev.reverse());
            assert(forall|q: int|
                0 <= q < tprev.reverse().len() ==> is_digit(#[trigger] tprev.reverse()[q]));
            lemma_digits_prepend(c, tprev.reverse());
            lemma_pow10_pos(tprev.len() as nat);
            assert(digits_value(tmp@.reverse()) == digit_of(c) * pow10(tprev.len() as nat)
                + digits_value(tprev.reverse()));
            assert(mprev == (m as int) * 10 + d8 as int);
            assert((m as int) * pow10(tmp@.len() as nat) + digit_of(c) * pow10(
                tprev.len() as nat,
            ) == mprev * pow10(tprev.len() as nat)) by {
                assert(pow10(tmp@.len() as nat) == 10 * pow10(tprev.len() as nat));
                assert((m as int) * (10 * pow10(tprev.len() as nat)) + (d8 as int) * pow10(
                    tprev.len() as nat,
                ) == ((m as int) * 10 + d8 as int) * pow10(tprev.len() as nat))
                    by (nonlinear_arith);
            };
            if m == 0 {
                assert(tmp@.last() == c);
                assert(d8 as int == mprev);
                assert(digit_of(c) >= 1);
            }
        }
    }
    let len: usize = tmp.len();
    let mut out: Vec<char> = Vec::new();
    let mut i: usize = 0;
    while i < len
        invariant
            i <= len,
            len == tmp@.len(),
            len >= 1,
            out@ == tmp@.reverse().take(i as int),
        decreases len - i,
    {
        out.push(tmp[len - 1 - i]);
        i = i + 1;
        proof {
            assert(out@ =~= tmp@.reverse().take(i as int));
        }
    }
    proof {
        assert(out@ =~= tmp@.reverse());
        assert(m * pow10(tmp@.len() as nat) == 0);
        assert(out@[0] == tmp@.last());
        assert(out@[0] != '0') by {
            assert(digit_of(tmp@.last()) >= 1);
            if tmp@.last() == '0' {
                assert(digit_of('0') == 0);
            }
        };
    }
    out
}

/// The character of one decimal digit.
pub fn dec_digit_char(d: u8) -> (r: char)
    requires
        d <= 9,
    ensures
        is_digit(r),
        digit_of(r) == d as int,
{
    let u: u32 = 48 + d as u32;
    if let Some(c) = char::from_u32(u) {
        proof {
            vstd::utf8::char_u32_cast(c, u);
        }
        c
    } else {
        '0'
    }
}

/// Two digit strings without leading zeros naming the same value are equal.
pub proof fn lemma_canonical_digits_unique(a: Seq<char>, b: Seq<char>)
    requires
        a.len() >= 1,
        b.len() >= 1,
        forall|q: int| 0 <= q < a.len() ==> is_digit(#[trigger] a[q]),
        forall|q: int| 0 <= q < b.len() ==> is_digit(#[trigger] b[q]),
        digits_value(a) == digits_value(b),
        a[0] != '0' || a.len() == 1,
        b[0] != '0' || b.len() == 1,
    ensures
        a == b,
    decreases a.len() + b.len(),
{
    lemma_digits_bounds(a);
    lemma_digits_bounds(b);
    if a.len() == b.len() {
        lemma_equal_len_digits(a, b);
    } else if a.len() < b.len() {
        lemma_pow10_mono(a.len() as nat, (b.len() - 1) as nat);
        assert(false);
    } else {
        lemma_pow10_mono(b.len() as nat, (a.len() - 1) as nat);
        assert(false);
    }
}

/// Bounds on the value of a digit string without a leading zero.
proof fn lemma_digits_bounds(s: Seq<char>)
    requires
        s.len() >= 1,
        forall|q: int| 0 <= q < s.len() ==> is_digit(#[trigger] s[q]),
        s[0] != '0' || s.len() == 1,
    ensures
        digits_value(s) < pow10(s.len() as nat),
        s.len() >= 2 ==> digits_value(s) >= pow10((s.len() - 1) as nat),
        digits_value(s) >= 0,
    decreases s.len(),
{
    if s.len() == 1 {
        assert(s.drop_last() =~= Seq::<char>::empty());
        assert(digits_value(Seq::<char>::empty()) == 0);
        assert(digits_value(s) == digit_of(s.last()));
    } else {
        assert(forall|q: int| 0 <= q < s.len() - 1 ==> s.drop_last()[q] == s[q]);
        lemma_digits_bounds(s.drop_last());
        assert(digits_value(s) == digits_value(s.drop_last()) * 10 + digit_of(s.last()));
        assert(pow10(s.len() as nat) == 10 * pow10((s.len() - 1) as nat));
        assert(digits_value(s.drop_last()) * 10 + digit_of(s.last()) < pow10(
            (s.len() - 1) as nat,
        ) * 10) by {
            assert(digits_value(s.drop_last()) <= pow10((s.len() - 1) as nat) - 1);
            assert(digits_value(s.drop_last()) * 10 <= (pow10((s.len() - 1) as nat) - 1) * 10)
                by (nonlinear_arith)
                requires
                    digits_value(s.drop_last()) <= pow10((s.len() - 1) as nat) - 1,
            ;
        };
        if s.len() >= 3 {
            assert(digits_value(s.drop_last()) >= pow10((s.len() - 2) as nat));
            assert(digits_value(s.drop_last()) * 10 >= pow10((s.len() - 2) as nat) * 10)
                by (nonlinear_arith)
                requires
                    digits_value(s.drop_last()) >= pow10((s.len() - 2) as nat),
            ;
            assert(pow10((s.len() - 1) as nat) == 10 * pow10((s.len() - 2) as nat));
        } else {
            assert(s.len() == 2);
            assert(digit_of(s[0]) >= 1);
            assert(digits_value(s.drop_last()) == digit_of(s[0])) by {
                assert(s.drop_last().drop_last() =~= Seq::<char>::empty());
                assert(digits_value(Seq::<char>::empty()) == 0);
                assert(s.drop_last().last() == s[0]);
            };
            assert(pow10(1nat) == 10);
        }
    }
}

proof fn lemma_pow10_mono(a: nat, b: nat)
    requires
        a <= b,
    ensures
        pow10(a) <= pow10(b),
    decreases b,
{
    if a < b {
        lemma_pow10_mono(a, (b - 1) as nat);
        lemma_pow10_pos((b - 1) as nat);
    }
}

/// Equal-length digit strings with equal values are equal.
proof fn lemma_equal_len_digits(a: Seq<char>, b: Seq<char>)
    requires
        a.len() == b.len(),
        forall|q: int| 0 <= q < a.len() ==> is_digit(#[trigger] a[q]),
        forall|q: int| 0 <= q < b.len() ==> is_digit(#[trigger] b[q]),
        digits_value(a) == digits_value(b),
    ensures
        a == b,
    decreases a.len(),
{
    if a.len() == 0 {
        assert(a =~= b);
    } else {
        assert(forall|q: int| 0 <= q < a.len() - 1 ==> a.drop_last()[q] == a[q]);
        assert(forall|q: int| 0 <= q < b.len() - 1 ==> b.drop_last()[q] == b[q]);
        lemma_digits_value_nonneg(a.drop_last());
        lemma_digits_value_nonneg(b.drop_last());
        assert(digit_of(a.last()) == digit_of(b.last())) by {
            assert(digits_value(a) == digits_value(a.drop_last()) * 10 + digit_of(a.last()));
            assert(digits_value(b) == digits_value(b.drop_last()) * 10 + digit_of(b.last()));
        };
        assert(a.last() == b.last()) by {
            let ua = a.last() as u32;
            let ub = b.last() as u32;
            assert(ua == ub);
            vstd::utf8::char_u32_cast(a.last(), ua);
            vstd::utf8::char_u32_cast(b.last(), ub);
        };
        lemma_equal_len_digits(a.drop_last(), b.drop_last());
        assert(a =~= a.drop_last().push(a.last()));
        assert(b =~= b.drop_last().push(b.last()));
    }
}

} // verus!
