//! Decimal numbers as DXF text carries them: integer literals with their
//! value, floating-point literals by their syntax, and the decimal form of
//! integers that the emitter writes.

use vstd::prelude::*;
use vstd::string::*;

use crate::text::push_char;

verus! {

pub open spec fn is_digit(c: char) -> bool {
    '0' <= c && c <= '9'
}

pub open spec fn digit_value(c: char) -> int {
    (c as u32) as int - 48
}

pub open spec fn all_digits(s: Seq<char>) -> bool {
    forall|i: int| 0 <= i < s.len() ==> is_digit(#[trigger] s[i])
}

/// The value of a string of decimal digits.
pub open spec fn digits_value(s: Seq<char>) -> int
    decreases s.len(),
{
    if s.len() == 0 {
        0
    } else {
        10 * digits_value(s.drop_last()) + digit_value(s.last())
    }
}

pub open spec fn is_sign(c: char) -> bool {
    c == '+' || c == '-'
}

/// `s` without one leading sign character, if it has one.
pub open spec fn strip_sign(s: Seq<char>) -> Seq<char> {
    if s.len() > 0 && is_sign(s[0]) {
        s.drop_first()
    } else {
        s
    }
}

/// The value of an integer literal in the syntax of Rust's `FromStr` for
/// signed integers: an optional `+` or `-`, then at least one decimal
/// digit, and nothing else.
pub open spec fn int_literal_value(s: Seq<char>) -> Option<int> {
    let d = strip_sign(s);
    if d.len() > 0 && all_digits(d) {
        if s[0] == '-' {
            Some(-digits_value(d))
        } else {
            Some(digits_value(d))
        }
    } else {
        None
    }
}

/// What `s.parse::<i64>()` gives: the literal's value where it fits.
pub open spec fn spec_parse_i64(s: Seq<char>) -> Option<i64> {
    match int_literal_value(s) {
        Some(v) => if i64::MIN <= v <= i64::MAX {
            Some(v as i64)
        } else {
            None
        },
        None => None,
    }
}

/// What `s.parse::<i32>()` gives.
pub open spec fn spec_parse_i32(s: Seq<char>) -> Option<i32> {
    match int_literal_value(s) {
        Some(v) => if i32::MIN <= v <= i32::MAX {
            Some(v as i32)
        } else {
            None
        },
        None => None,
    }
}

pub proof fn lemma_digits_value_nonneg(s: Seq<char>)
    requires
        all_digits(s),
    ensures
        digits_value(s) >= 0,
    decreases s.len(),
{
    if s.len() > 0 {
        lemma_digits_value_nonneg(s.drop_last());
    }
}

pub proof fn lemma_digits_value_prefix_le(s: Seq<char>, k: int)
    requires
        all_digits(s),
        0 <= k <= s.len(),
    ensures
        digits_value(s.take(k)) <= digits_value(s),
    decreases s.len() - k,
{
    if k < s.len() {
        assert(s.drop_last().take(k) =~= s.take(k));
        lemma_digits_value_prefix_le(s.drop_last(), k);
        lemma_digits_value_nonneg(s.drop_last());
    } else {
        assert(s.take(k) =~= s);
    }
}

pub fn is_digit_char(c: char) -> (b: bool)
    ensures
        b == is_digit(c),
{
    '0' <= c && c <= '9'
}

/// The integer literal that `s` holds, where its value lies in `[lo, hi]`.
pub fn parse_int_bounded(s: &str, lo: i128, hi: i128) -> (r: Option<i128>)
    requires
        -0x1_0000_0000_0000_0000 <= lo,
        hi <= 0x1_0000_0000_0000_0000,
    ensures
        r == (match int_literal_value(s@) {
            Some(v) => if lo <= v <= hi {
                Some(v as i128)
            } else {
                None
            },
            None => None,
        }),
{
    let n = s.unicode_len();
    if n == 0 {
        return None;
    }
    let first = s.get_char(0);
    let neg = first == '-';
    let start: usize = if first == '+' || first == '-' { 1 } else { 0 };
    let ghost d = strip_sign(s@);
    assert(d =~= s@.subrange(start as int, n as int));
    if start == n {
        assert(d.len() == 0);
        return None;
    }
    let mut acc: i128 = 0;
    let mut i: usize = start;
    while i < n
        invariant
            n == s@.len(),
            start <= i <= n,
            d == s@.subrange(start as int, n as int),
            d == strip_sign(s@),
            -0x1_0000_0000_0000_0000 <= lo,
            hi <= 0x1_0000_0000_0000_0000,
            all_digits(d.take(i - start)),
            acc == digits_value(d.take(i - start)),
            0 <= acc <= 0x1_0000_0000_0000_0000,
        decreases n - i,
    {
        let c = s.get_char(i);
        assert(d[i - start] == c);
        if !is_digit_char(c) {
            assert(!all_digits(d));
            return None;
        }
        let dv = (c as u32 - 48) as i128;
        proof {
            let k = (i - start) as int;
            assert(d.take(k + 1).drop_last() =~= d.take(k));
            assert(d.take(k + 1).last() == c);
        }
        acc = acc * 10 + dv;
        i = i + 1;
        assert(acc == digits_value(d.take(i - start)));
        if acc > 0x1_0000_0000_0000_0000 {
            proof {
                let k = (i - start) as int;
                if all_digits(d) {
                    lemma_digits_value_prefix_le(d, k);
                    assert(digits_value(d) > 0x1_0000_0000_0000_0000);
                }
            }
            return None;
        }
    }
    assert(d.take(n - start) =~= d);
    if neg {
        if -acc < lo || -acc > hi {
            return None;
        }
        Some(-acc)
    } else {
        if acc < lo || acc > hi {
            return None;
        }
        Some(acc)
    }
}

/// `s.parse::<i64>().ok()`.
pub fn parse_i64(s: &str) -> (r: Option<i64>)
    ensures
        r == spec_parse_i64(s@),
{
    match parse_int_bounded(s, -0x8000_0000_0000_0000, 0x7fff_ffff_ffff_ffff) {
        Some(v) => Some(v as i64),
        None => None,
    }
}

/// `s.parse::<i32>().ok()`.
pub fn parse_i32(s: &str) -> (r: Option<i32>)
    ensures
        r == spec_parse_i32(s@),
{
    match parse_int_bounded(s, -0x8000_0000, 0x7fff_ffff) {
        Some(v) => Some(v as i32),
        None => None,
    }
}


/// ASCII lower-casing of one character (other characters are unchanged).
pub open spec fn lower(c: char) -> char {
    if 'A' <= c && c <= 'Z' {
        ((c as u32) + 32) as char
    } else {
        c
    }
}

pub fn lower_char(c: char) -> (r: char)
    ensures
        r == lower(c),
{
    if 'A' <= c && c <= 'Z' {
        ((c as u32) + 32) as u8 as char
    } else {
        c
    }
}

/// `s` equals the lower-case ASCII `word` ignoring ASCII case.
pub open spec fn matches_ci(s: Seq<char>, word: Seq<char>) -> bool {
    s.len() == word.len() && forall|i: int| 0 <= i < s.len() ==> lower(#[trigger] s[i]) == word[i]
}

pub open spec fn is_exp_marker(c: char) -> bool {
    c == 'e' || c == 'E'
}

/// Index of the first exponent marker in `s`, or its length if none.
pub open spec fn pos_of_exp(s: Seq<char>) -> int
    decreases s.len(),
{
    if s.len() == 0 {
        0
    } else if is_exp_marker(s[0]) {
        0
    } else {
        1 + pos_of_exp(s.drop_first())
    }
}

/// Index of the first `.` in `s`, or its length if none.
pub open spec fn pos_of_dot(s: Seq<char>) -> int
    decreases s.len(),
{
    if s.len() == 0 {
        0
    } else if s[0] == '.' {
        0
    } else {
        1 + pos_of_dot(s.drop_first())
    }
}

/// `Digit+ | Digit+ '.' Digit* | Digit* '.' Digit+`
pub open spec fn mantissa_ok(m: Seq<char>) -> bool {
    let j = pos_of_dot(m);
    if j == m.len() {
        m.len() > 0 && all_digits(m)
    } else {
        m.len() >= 2 && all_digits(m.take(j)) && all_digits(m.skip(j + 1))
    }
}

/// What follows the exponent marker: `Sign? Digit+`.
pub open spec fn exponent_ok(x: Seq<char>) -> bool {
    let d = strip_sign(x);
    d.len() > 0 && all_digits(d)
}

/// A decimal number: a mantissa, then optionally a marker and an exponent.
pub open spec fn number_ok(b: Seq<char>) -> bool {
    let k = pos_of_exp(b);
    mantissa_ok(b.take(k)) && (k == b.len() || exponent_ok(b.skip(k + 1)))
}

/// `inf`, `infinity` or `nan`, in any ASCII case.
pub open spec fn special_ok(b: Seq<char>) -> bool {
    matches_ci(b, seq!['i', 'n', 'f']) || matches_ci(b, seq!['n', 'a', 'n'])
        || matches_ci(b, seq!['i', 'n', 'f', 'i', 'n', 'i', 't', 'y'])
}

/// The strings that `str::parse::<f64>` accepts (its documented grammar:
/// `Sign? ('inf' | 'infinity' | 'nan' | Number)`, letters in any case).
pub open spec fn is_float_literal(s: Seq<char>) -> bool {
    let b = strip_sign(s);
    special_ok(b) || number_ok(b)
}

pub proof fn lemma_pos_of_exp_skip(s: Seq<char>, i: int)
    requires
        0 <= i <= s.len(),
        forall|k: int| 0 <= k < i ==> !is_exp_marker(#[trigger] s[k]),
    ensures
        pos_of_exp(s) == i + pos_of_exp(s.skip(i)),
    decreases i,
{
    if i > 0 {
        assert(s.drop_first().skip(i - 1) =~= s.skip(i));
        assert forall|k: int| 0 <= k < i - 1 implies !is_exp_marker(#[trigger] s.drop_first()[k]) by {
            assert(s.drop_first()[k] == s[k + 1]);
        }
        lemma_pos_of_exp_skip(s.drop_first(), i - 1);
    } else {
        assert(s.skip(0) =~= s);
    }
}

pub proof fn lemma_pos_of_dot_skip(s: Seq<char>, i: int)
    requires
        0 <= i <= s.len(),
        forall|k: int| 0 <= k < i ==> #[trigger] s[k] != '.',
    ensures
        pos_of_dot(s) == i + pos_of_dot(s.skip(i)),
    decreases i,
{
    if i > 0 {
        assert(s.drop_first().skip(i - 1) =~= s.skip(i));
        assert forall|k: int| 0 <= k < i - 1 implies #[trigger] s.drop_first()[k] != '.' by {
            assert(s.drop_first()[k] == s[k + 1]);
        }
        lemma_pos_of_dot_skip(s.drop_first(), i - 1);
    } else {
        assert(s.skip(0) =~= s);
    }
}

/// Whether the characters of `s` in `[from, to)` are all decimal digits.
pub fn all_digits_in(s: &str, from: usize, to: usize) -> (b: bool)
    requires
        from <= to <= s@.len(),
    ensures
        b == all_digits(s@.subrange(from as int, to as int)),
{
    let mut i = from;
    while i < to
        invariant
            from <= i <= to <= s@.len(),
            forall|k: int| from <= k < i ==> is_digit(#[trigger] s@[k]),
        decreases to - i,
    {
        if !is_digit_char(s.get_char(i)) {
            assert(s@.subrange(from as int, to as int)[i - from] == s@[i as int]);
            return false;
        }
        i = i + 1;
    }
    assert forall|k: int| 0 <= k < to - from implies is_digit(
        #[trigger] s@.subrange(from as int, to as int)[k],
    ) by {
        assert(s@.subrange(from as int, to as int)[k] == s@[k + from]);
    }
    true
}

/// Index of the first exponent marker in `[from, to)`, or `to`.
pub fn exp_index(s: &str, from: usize, to: usize) -> (k: usize)
    requires
        from <= to <= s@.len(),
    ensures
        from <= k <= to,
        k - from == pos_of_exp(s@.subrange(from as int, to as int)),
{
    let ghost t = s@.subrange(from as int, to as int);
    let mut i = from;
    while i < to
        invariant
            from <= i <= to <= s@.len(),
            t == s@.subrange(from as int, to as int),
            forall|k: int| 0 <= k < i - from ==> !is_exp_marker(#[trigger] t[k]),
        decreases to - i,
    {
        let c = s.get_char(i);
        assert(t[i - from] == c);
        if c == 'e' || c == 'E' {
            proof {
                lemma_pos_of_exp_skip(t, i - from);
                assert(t.skip(i - from)[0] == c);
            }
            return i;
        }
        i = i + 1;
    }
    proof {
        lemma_pos_of_exp_skip(t, i - from);
    }
    i
}

/// Index of the first `.` in `[from, to)`, or `to`.
fn find_dot(s: &str, from: usize, to: usize) -> (k: usize)
    requires
        from <= to <= s@.len(),
    ensures
        from <= k <= to,
        k - from == pos_of_dot(s@.subrange(from as int, to as int)),
{
    let ghost t = s@.subrange(from as int, to as int);
    let mut i = from;
    while i < to
        invariant
            from <= i <= to <= s@.len(),
            t == s@.subrange(from as int, to as int),
            forall|k: int| 0 <= k < i - from ==> #[trigger] t[k] != '.',
        decreases to - i,
    {
        let c = s.get_char(i);
        assert(t[i - from] == c);
        if c == '.' {
            proof {
                lemma_pos_of_dot_skip(t, i - from);
                assert(t.skip(i - from)[0] == c);
            }
            return i;
        }
        i = i + 1;
    }
    proof {
        lemma_pos_of_dot_skip(t, i - from);
    }
    i
}

fn mantissa_in(s: &str, from: usize, to: usize) -> (b: bool)
    requires
        from <= to <= s@.len(),
    ensures
        b == mantissa_ok(s@.subrange(from as int, to as int)),
{
    let ghost m = s@.subrange(from as int, to as int);
    let j = find_dot(s, from, to);
    if j == to {
        to > from && all_digits_in(s, from, to)
    } else {
        assert(m.take(j - from) =~= s@.subrange(from as int, j as int));
        assert(m.skip(j - from + 1) =~= s@.subrange(j + 1, to as int));
        to - from >= 2 && all_digits_in(s, from, j) && all_digits_in(s, j + 1, to)
    }
}

fn exponent_in(s: &str, from: usize, to: usize) -> (b: bool)
    requires
        from <= to <= s@.len(),
    ensures
        b == exponent_ok(s@.subrange(from as int, to as int)),
{
    let ghost x = s@.subrange(from as int, to as int);
    let mut a = from;
    if a < to {
        let c = s.get_char(a);
        assert(x[0] == c);
        if c == '+' || c == '-' {
            a = a + 1;
        }
    }
    assert(strip_sign(x) =~= s@.subrange(a as int, to as int));
    a < to && all_digits_in(s, a, to)
}

fn matches_word_in(s: &str, from: usize, to: usize, word: &[char]) -> (b: bool)
    requires
        from <= to <= s@.len(),
    ensures
        b == matches_ci(s@.subrange(from as int, to as int), word@),
{
    let ghost t = s@.subrange(from as int, to as int);
    if to - from != word.len() {
        return false;
    }
    let mut i: usize = 0;
    while i < word.len()
        invariant
            from <= to <= s@.len(),
            t == s@.subrange(from as int, to as int),
            to - from == word@.len(),
            i <= word@.len(),
            forall|k: int| 0 <= k < i ==> lower(#[trigger] t[k]) == word@[k],
        decreases word@.len() - i,
    {
        let c = s.get_char(from + i);
        assert(t[i as int] == c);
        if lower_char(c) != word[i] {
            return false;
        }
        i = i + 1;
    }
    true
}

/// Whether `s.parse::<f64>()` succeeds.
pub fn is_float_text(s: &str) -> (b: bool)
    ensures
        b == is_float_literal(s@),
{
    let n = s.unicode_len();
    let mut a: usize = 0;
    if n > 0 {
        let c = s.get_char(0);
        if c == '+' || c == '-' {
            a = 1;
        }
    }
    let ghost body = strip_sign(s@);
    assert(body =~= s@.subrange(a as int, n as int));
    let inf = ['i', 'n', 'f'];
    let nan = ['n', 'a', 'n'];
    let infinity = ['i', 'n', 'f', 'i', 'n', 'i', 't', 'y'];
    assert(inf@ =~= seq!['i', 'n', 'f']);
    assert(nan@ =~= seq!['n', 'a', 'n']);
    assert(infinity@ =~= seq!['i', 'n', 'f', 'i', 'n', 'i', 't', 'y']);
    if matches_word_in(s, a, n, inf.as_slice()) || matches_word_in(s, a, n, nan.as_slice())
        || matches_word_in(s, a, n, infinity.as_slice()) {
        return true;
    }
    number_in(s, a, n)
}

/// Whether the characters in `[from, to)` form a decimal number.
pub fn number_in(s: &str, from: usize, to: usize) -> (r: bool)
    requires
        from <= to <= s@.len(),
    ensures
        r == number_ok(s@.subrange(from as int, to as int)),
{
    let ghost body = s@.subrange(from as int, to as int);
    let k = exp_index(s, from, to);
    assert(body.take(k - from) =~= s@.subrange(from as int, k as int));
    if !mantissa_in(s, from, k) {
        return false;
    }
    if k == to {
        return true;
    }
    assert(body.skip(k - from + 1) =~= s@.subrange(k + 1, to as int));
    exponent_in(s, k + 1, to)
}


pub open spec fn digit_char(d: int) -> char {
    ((d + 48) as u32) as char
}

/// The decimal digits of `n`, without leading zeros.
pub open spec fn nat_text(n: nat) -> Seq<char>
    decreases n,
{
    if n < 10 {
        seq![digit_char(n as int)]
    } else {
        nat_text(n / 10).push(digit_char((n % 10) as int))
    }
}

/// The decimal form of `n` that `format!("{n}")` writes for an integer.
pub open spec fn int_text(n: int) -> Seq<char> {
    if n < 0 {
        seq!['-'] + nat_text((-n) as nat)
    } else {
        nat_text(n as nat)
    }
}

proof fn lemma_digit_char(d: int)
    requires
        0 <= d < 10,
    ensures
        digit_value(digit_char(d)) == d,
        is_digit(digit_char(d)),
{
}

pub proof fn lemma_nat_text(n: nat)
    ensures
        nat_text(n).len() > 0,
        all_digits(nat_text(n)),
        digits_value(nat_text(n)) == n,
    decreases n,
{
    lemma_digit_char((n % 10) as int);
    if n < 10 {
        let t = nat_text(n);
        assert(t.drop_last() =~= Seq::<char>::empty());
        assert(digits_value(Seq::<char>::empty()) == 0);
    }
    if n >= 10 {
        lemma_nat_text(n / 10);
        let t = nat_text(n);
        assert(t.drop_last() =~= nat_text(n / 10));
        assert(t.last() == digit_char((n % 10) as int));
        assert(digits_value(t) == 10 * digits_value(t.drop_last()) + digit_value(t.last()));
        assert(10 * (n / 10) + n % 10 == n);
        assert forall|i: int| 0 <= i < t.len() implies is_digit(#[trigger] t[i]) by {
            if i < t.len() - 1 {
                assert(t[i] == nat_text(n / 10)[i]);
            }
        }
    }
}

/// Reading back the decimal form of an integer gives the integer.
pub proof fn lemma_int_text_parses(n: int)
    ensures
        int_literal_value(int_text(n)) == Some(n),
{
    if n < 0 {
        lemma_nat_text((-n) as nat);
        assert(strip_sign(int_text(n)) =~= nat_text((-n) as nat));
    } else {
        lemma_nat_text(n as nat);
        let t = nat_text(n as nat);
        assert(is_digit(t[0]));
        assert(strip_sign(t) == t);
    }
}

/// The decimal form of a natural number below 2^127.
fn format_nat(n: u128) -> (r: String)
    ensures
        r@ == nat_text(n as nat),
    decreases n,
{
    let d = (n % 10) as u8;
    let c = (d + 48) as char;
    assert(c == digit_char((n % 10) as int));
    if n < 10 {
        let mut s = String::new();
        push_char(&mut s, c);
        assert(s@ =~= seq![c]);
        s
    } else {
        let mut s = format_nat(n / 10);
        push_char(&mut s, c);
        s
    }
}

/// `format!("{n}")` for an integer.
pub fn format_int(n: i128) -> (r: String)
    requires
        n > i128::MIN,
    ensures
        r@ == int_text(n as int),
{
    if n < 0 {
        let mut s = String::new();
        push_char(&mut s, '-');
        let t = format_nat((-n) as u128);
        s.append(t.as_str());
        assert(s@ =~= seq!['-'] + nat_text((-n) as nat));
        s
    } else {
        format_nat(n as u128)
    }
}

} // verus!
