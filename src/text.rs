//! Character-level helpers shared by the assembler, the machine and the
//! storage lines: blank handling, decimal integers, and conversions between
//! `String` and vectors of characters.
use vstd::prelude::*;

verus! {

/// Blank characters separate tokens and are trimmed from numeric text:
/// the characters with the Unicode White_Space property.
pub open spec fn is_blank(c: char) -> bool {
    ('\t' <= c && c <= '\r') || c == ' ' || c == '\u{85}' || c == '\u{A0}' || c == '\u{1680}'
        || ('\u{2000}' <= c && c <= '\u{200A}') || c == '\u{2028}' || c == '\u{2029}'
        || c == '\u{202F}' || c == '\u{205F}' || c == '\u{3000}'
}

/// The first position at or after `i` that does not hold a blank.
pub open spec fn skip_blanks(s: Seq<char>, i: int) -> int
    decreases s.len() - i,
{
    if 0 <= i < s.len() && is_blank(s[i]) {
        skip_blanks(s, i + 1)
    } else {
        i
    }
}

/// The first position at or after `i` that holds a blank, or the end.
pub open spec fn token_end(s: Seq<char>, i: int) -> int
    decreases s.len() - i,
{
    if 0 <= i < s.len() && !is_blank(s[i]) {
        token_end(s, i + 1)
    } else {
        i
    }
}

/// Moving back from `j`, the first position whose predecessor is not a blank,
/// never going below `lo`.
pub open spec fn trim_back(s: Seq<char>, lo: int, j: int) -> int
    decreases j - lo,
{
    if lo < j <= s.len() && is_blank(s[j - 1]) {
        trim_back(s, lo, j - 1)
    } else {
        j
    }
}

/// `s` without its leading and trailing blanks.
pub open spec fn trimmed(s: Seq<char>) -> Seq<char> {
    let a = skip_blanks(s, 0);
    s.subrange(a, trim_back(s, a, s.len() as int))
}

pub open spec fn is_digit(c: char) -> bool {
    '0' <= c && c <= '9'
}

pub open spec fn digit_value(c: char) -> int {
    c as int - '0' as int
}

/// The character of a decimal digit `0 <= n < 10`.
pub open spec fn digit_char(n: int) -> char {
    seq!['0', '1', '2', '3', '4', '5', '6', '7', '8', '9'][n]
}

pub open spec fn all_digits(d: Seq<char>) -> bool {
    d.len() > 0 && forall|i: int| 0 <= i < d.len() ==> is_digit(#[trigger] d[i])
}

/// The number that a string of decimal digits denotes, most significant first.
pub open spec fn digits_value(d: Seq<char>) -> int
    decreases d.len(),
{
    if d.len() == 0 {
        0
    } else {
        digits_value(d.drop_last()) * 10 + digit_value(d.last())
    }
}

/// The integer that `s` writes: an optional `+` or `-` followed by at least
/// one decimal digit, and nothing else.
pub open spec fn decimal_value(s: Seq<char>) -> Option<int> {
    if s.len() > 0 && (s[0] == '+' || s[0] == '-') && all_digits(s.drop_first()) {
        if s[0] == '-' {
            Some(-digits_value(s.drop_first()))
        } else {
            Some(digits_value(s.drop_first()))
        }
    } else if all_digits(s) {
        Some(digits_value(s))
    } else {
        None
    }
}

/// The `i32` that `s` writes, if it writes one in range.
pub open spec fn parse_i32_spec(s: Seq<char>) -> Option<i32> {
    match decimal_value(s) {
        Some(v) => if i32::MIN <= v <= i32::MAX {
            Some(v as i32)
        } else {
            None
        },
        None => None,
    }
}

/// The integer that `s` writes once trimmed, or 0 where it writes none.
pub open spec fn int_or_zero(s: Seq<char>) -> i32 {
    match parse_i32_spec(trimmed(s)) {
        Some(v) => v,
        None => 0,
    }
}

/// The decimal digits of `n`, most significant first, without leading zeros.
pub open spec fn nat_digits(n: nat) -> Seq<char>
    decreases n,
{
    if n < 10 {
        seq![digit_char(n as int)]
    } else {
        nat_digits(n / 10).push(digit_char((n % 10) as int))
    }
}

/// The decimal text of `v`: a `-` for a negative value, then its digits.
pub open spec fn decimal_text(v: i32) -> Seq<char> {
    if v < 0 {
        seq!['-'] + nat_digits((-v) as nat)
    } else {
        nat_digits(v as nat)
    }
}

/// Splits `s` at every `sep`: `n` separators give `n + 1` pieces.
pub open spec fn split_on(s: Seq<char>, sep: char) -> Seq<Seq<char>>
    decreases s.len(),
{
    if s.len() == 0 {
        seq![Seq::<char>::empty()]
    } else {
        let p = split_on(s.drop_last(), sep);
        if s.last() == sep {
            p.push(Seq::<char>::empty())
        } else {
            p.update(p.len() - 1, p.last().push(s.last()))
        }
    }
}

/// Copies the characters of `s` into a vector.
pub fn chars_of(s: &str) -> (r: Vec<char>)
    ensures
        r@ == s@,
{
    let mut r: Vec<char> = Vec::new();
    for c in it: s.chars()
        invariant
            r@ == it.seq().take(it.index() as int),
            it.seq() == s@,
    {
        r.push(c);
    }
    r
}

/// The character of the decimal digit `n`.
pub fn digit_char_of(n: u32) -> (r: char)
    requires
        n < 10,
    ensures
        r == digit_char(n as int),
{
    match n {
        0 => '0',
        1 => '1',
        2 => '2',
        3 => '3',
        4 => '4',
        5 => '5',
        6 => '6',
        7 => '7',
        8 => '8',
        _ => '9',
    }
}

/// The decimal text of `v`, as storage lines hold it.
pub fn format_decimal(v: i32) -> (r: Vec<char>)
    ensures
        r@ == decimal_text(v),
{
    let negative = v < 0;
    let mut m: u32 = if negative {
        (-(v as i64)) as u32
    } else {
        v as u32
    };
    let ghost n0: nat = m as nat;
    let mut d: Vec<char> = Vec::new();
    while m >= 10
        invariant
            nat_digits(n0) == nat_digits(m as nat) + d@,
        decreases m,
    {
        let c = digit_char_of(m % 10);
        let ghost rest = nat_digits((m / 10) as nat);
        let ghost d0 = d@;
        assert(nat_digits(m as nat) == rest.push(c));
        d.insert(0, c);
        m = m / 10;
        assert(rest.push(c) + d0 =~= rest + d@);
    }
    let c = digit_char_of(m);
    let ghost d0 = d@;
    d.insert(0, c);
    assert(nat_digits(m as nat) + d0 =~= d@);
    if negative {
        let ghost d1 = d@;
        d.insert(0, '-');
        assert(d@ =~= seq!['-'] + d1);
    }
    d
}

proof fn lemma_digit_char(n: int)
    requires
        0 <= n < 10,
    ensures
        is_digit(digit_char(n)),
        digit_value(digit_char(n)) == n,
{
    let t = seq!['0', '1', '2', '3', '4', '5', '6', '7', '8', '9'];
    assert(t[n] == digit_char(n));
    if n == 0 { assert(t[0] == '0'); }
    else if n == 1 { assert(t[1] == '1'); }
    else if n == 2 { assert(t[2] == '2'); }
    else if n == 3 { assert(t[3] == '3'); }
    else if n == 4 { assert(t[4] == '4'); }
    else if n == 5 { assert(t[5] == '5'); }
    else if n == 6 { assert(t[6] == '6'); }
    else if n == 7 { assert(t[7] == '7'); }
    else if n == 8 { assert(t[8] == '8'); }
    else { assert(t[9] == '9'); }
}

proof fn lemma_nat_digits(n: nat)
    ensures
        all_digits(nat_digits(n)),
        digits_value(nat_digits(n)) == n,
    decreases n,
{
    if n < 10 {
        lemma_digit_char(n as int);
        assert(seq![digit_char(n as int)].drop_last() =~= Seq::<char>::empty());
        assert(digits_value(Seq::<char>::empty()) == 0);
        assert(digits_value(nat_digits(n)) == 0 * 10 + n);
    } else {
        lemma_nat_digits(n / 10);
        lemma_digit_char((n % 10) as int);
        let s = nat_digits(n / 10);
        assert(nat_digits(n).drop_last() =~= s);
        assert(digits_value(nat_digits(n)) == (n / 10) * 10 + n % 10);
        assert(forall|i: int| 0 <= i < nat_digits(n).len() ==> is_digit(#[trigger] nat_digits(n)[i])) by {
            assert forall|i: int| 0 <= i < nat_digits(n).len() implies is_digit(#[trigger] nat_digits(n)[i]) by {
                if i < s.len() {
                    assert(nat_digits(n)[i] == s[i]);
                }
            }
        }
    }
}

/// The decimal text of an `i32` reads back as that value.
pub proof fn lemma_decimal_round_trip(v: i32)
    ensures
        parse_i32_spec(decimal_text(v)) == Some(v),
        trimmed(decimal_text(v)) == decimal_text(v),
        int_or_zero(decimal_text(v)) == v,
{
    let n: nat = if v < 0 { (-v) as nat } else { v as nat };
    lemma_nat_digits(n);
    let d = nat_digits(n);
    let t = decimal_text(v);
    assert(is_digit(d[0]));
    assert(is_digit(d.last()));
    if v < 0 {
        assert(t.drop_first() =~= d);
        assert(t[0] == '-');
    } else {
        assert(t == d);
    }
    assert(!is_blank(t[0]));
    assert(!is_blank(t.last()));
    assert(skip_blanks(t, 0) == 0);
    assert(trim_back(t, 0, t.len() as int) == t.len());
    assert(t.subrange(0, t.len() as int) =~= t);
}

/// Relies on `String`'s `FromIterator<&char>`: the string holds the
/// characters in order.
#[verifier::external_body]
pub(crate) fn string_of(v: &[char]) -> (r: String)
    ensures
        r@ == v@,
{
    v.iter().collect()
}

pub fn is_blank_char(c: char) -> (r: bool)
    ensures
        r == is_blank(c),
{
    ('\t' <= c && c <= '\r') || c == ' ' || c == '\u{85}' || c == '\u{A0}' || c == '\u{1680}'
        || ('\u{2000}' <= c && c <= '\u{200A}') || c == '\u{2028}' || c == '\u{2029}'
        || c == '\u{202F}' || c == '\u{205F}' || c == '\u{3000}'
}

/// The first position at or after `i` in `s` that does not hold a blank.
pub fn next_non_blank(s: &[char], i: usize) -> (r: usize)
    requires
        i <= s@.len(),
    ensures
        r as int == skip_blanks(s@, i as int),
        i <= r <= s@.len(),
{
    let mut k = i;
    while k < s.len() && is_blank_char(s[k])
        invariant
            i <= k <= s@.len(),
            skip_blanks(s@, i as int) == skip_blanks(s@, k as int),
        decreases s@.len() - k,
    {
        k = k + 1;
    }
    k
}

/// The first position at or after `i` in `s` that holds a blank, or the end.
pub fn next_blank(s: &[char], i: usize) -> (r: usize)
    requires
        i <= s@.len(),
    ensures
        r as int == token_end(s@, i as int),
        i <= r <= s@.len(),
{
    let mut k = i;
    while k < s.len() && !is_blank_char(s[k])
        invariant
            i <= k <= s@.len(),
            token_end(s@, i as int) == token_end(s@, k as int),
        decreases s@.len() - k,
    {
        k = k + 1;
    }
    k
}

/// The bounds of `s` once its leading and trailing blanks are left out.
pub fn trim_bounds(s: &[char]) -> (r: (usize, usize))
    ensures
        r.0 <= r.1 <= s@.len(),
        s@.subrange(r.0 as int, r.1 as int) == trimmed(s@),
{
    let a = next_non_blank(s, 0);
    let mut b = s.len();
    while a < b && is_blank_char(s[b - 1])
        invariant
            a <= b <= s@.len(),
            a as int == skip_blanks(s@, 0),
            trim_back(s@, a as int, s@.len() as int) == trim_back(s@, a as int, b as int),
        decreases b,
    {
        b = b - 1;
    }
    (a, b)
}

/// Parses the decimal integer that `s[lo..hi]` writes, if it is an `i32`.
pub fn parse_i32(s: &[char], lo: usize, hi: usize) -> (r: Option<i32>)
    requires
        lo <= hi <= s@.len(),
    ensures
        r == parse_i32_spec(s@.subrange(lo as int, hi as int)),
{
    let ghost t = s@.subrange(lo as int, hi as int);
    if lo == hi {
        return None;
    }
    let negative = s[lo] == '-';
    let start = if s[lo] == '+' || s[lo] == '-' {
        lo + 1
    } else {
        lo
    };
    let ghost d = s@.subrange(start as int, hi as int);
    assert(start > lo ==> d =~= t.drop_first());
    assert(start == lo ==> d =~= t);
    if start == hi {
        return None;
    }
    let limit: i64 = if negative {
        2147483648
    } else {
        2147483647
    };
    let mut acc: i64 = 0;
    let mut too_big = false;
    let mut k = start;
    while k < hi
        invariant
            start <= k <= hi <= s@.len(),
            d == s@.subrange(start as int, hi as int),
            t == s@.subrange(lo as int, hi as int),
            lo <= start,
            start > lo ==> (t[0] == '+' || t[0] == '-'),
            start > lo ==> d =~= t.drop_first(),
            start == lo ==> d =~= t,
            start == lo ==> !(t[0] == '+' || t[0] == '-'),
            negative == (t[0] == '-'),
            forall|j: int| start <= j < k ==> is_digit(#[trigger] s@[j]),
            0 <= acc <= limit,
            !too_big ==> acc == digits_value(d.take(k - start)),
            too_big ==> digits_value(d.take(k - start)) > limit,
            limit == 2147483647 || limit == 2147483648,
        decreases hi - k,
    {
        let c = s[k];
        if !('0' <= c && c <= '9') {
            assert(!is_digit(d[k - start]));
            assert(!all_digits(d));
            assert(start > lo ==> !is_digit(t[0]));
            return None;
        }
        let ghost prev = d.take(k - start);
        assert(d.take(k - start + 1).drop_last() =~= prev);
        let dv = (c as u32 - '0' as u32) as i64;
        if !too_big {
            if acc > (limit - dv) / 10 {
                too_big = true;
                assert(acc * 10 + dv > limit) by (nonlinear_arith)
                    requires acc > (limit - dv) / 10, 0 <= dv <= 9, limit >= 0;
            } else {
                assert(acc * 10 + dv <= limit) by (nonlinear_arith)
                    requires acc <= (limit - dv) / 10, 0 <= dv <= 9, limit >= 0;
                acc = acc * 10 + dv;
            }
        } else {
            assert(digits_value(prev) * 10 + dv > limit) by (nonlinear_arith)
                requires digits_value(prev) > limit, 0 <= dv <= 9, limit >= 0;
        }
        k = k + 1;
    }
    assert(d.take(hi - start) =~= d);
    assert(all_digits(d));
    if too_big {
        return None;
    }
    if negative {
        Some((-acc) as i32)
    } else {
        Some(acc as i32)
    }
}

/// The integer that `s` writes once trimmed, or 0 where it writes none.
pub fn parse_int_or_zero(s: &[char]) -> (r: i32)
    ensures
        r == int_or_zero(s@),
{
    let (a, b) = trim_bounds(s);
    match parse_i32(s, a, b) {
        Some(v) => v,
        None => 0,
    }
}

} // verus!
