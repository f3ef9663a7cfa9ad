//! Character-level helpers shared by the parsers and formatters: decimal
//! numerals, whitespace trimming, and building strings from characters.

use vstd::prelude::*;

verus! {

// ── Strings and characters ──────────────────────────────────────────────────

/// The characters of `s`, in order.
pub fn chars_of(s: &str) -> (r: Vec<char>)
    ensures
        r@ == s@,
{
    let mut r: Vec<char> = Vec::new();
    for c in it: s.chars()
        invariant
            r@ == it.seq().take(it.index() as int),
            it.seq() == s@,
    {
        r.push(c);
    }
    r
}

/// Appends one character (`String::push`).
#[verifier::external_body]
pub(crate) fn push_char(s: &mut String, c: char)
    ensures
        final(s)@ == old(s)@.push(c),
{
    s.push(c);
}

/// Appends the characters `v[lo..hi]` to `s`.
pub fn push_chars(s: &mut String, v: &[char], lo: usize, hi: usize)
    requires
        lo <= hi <= v@.len(),
    ensures
        final(s)@ == old(s)@ + v@.subrange(lo as int, hi as int),
{
    let mut i = lo;
    while i < hi
        invariant
            lo <= i <= hi <= v@.len(),
            s@ == old(s)@ + v@.subrange(lo as int, i as int),
        decreases hi - i,
    {
        push_char(s, v[i]);
        assert(v@.subrange(lo as int, i + 1) == v@.subrange(lo as int, i as int).push(v@[i as int]));
        i += 1;
    }
}

/// A string holding exactly the characters `v[lo..hi]`.
pub fn string_from(v: &[char], lo: usize, hi: usize) -> (r: String)
    requires
        lo <= hi <= v@.len(),
    ensures
        r@ == v@.subrange(lo as int, hi as int),
{
    let mut r = String::new();
    push_chars(&mut r, v, lo, hi);
    r
}

/// Appends the characters of `t` to `s`.
pub fn push_str(s: &mut String, t: &str)
    ensures
        final(s)@ == old(s)@ + t@,
{
    let v = chars_of(t);
    push_chars(s, v.as_slice(), 0, v.len());
    assert(v@.subrange(0, v@.len() as int) == v@);
}

/// Whether `v[lo..]` begins with the characters of `pat`.
pub fn has_at(v: &[char], lo: usize, pat: &[char]) -> (r: bool)
    requires
        lo <= v@.len(),
    ensures
        r == (lo + pat@.len() <= v@.len() && v@.subrange(lo as int, lo + pat@.len()) == pat@),
{
    if pat.len() > v.len() - lo {
        return false;
    }
    let mut i: usize = 0;
    while i < pat.len()
        invariant
            lo + pat.len() <= v.len(),
            i <= pat@.len(),
            forall|j: int| 0 <= j < i ==> v@[lo + j] == pat@[j],
        decreases pat@.len() - i,
    {
        if v[lo + i] != pat[i] {
            assert(v@.subrange(lo as int, lo + pat@.len())[i as int] != pat@[i as int]);
            return false;
        }
        i += 1;
    }
    assert(v@.subrange(lo as int, lo + pat@.len()) =~= pat@);
    true
}

/// Whether the two character sequences are equal.
pub fn chars_equal(a: &[char], b: &[char]) -> (r: bool)
    ensures
        r == (a@ == b@),
{
    if a.len() != b.len() {
        return false;
    }
    let r = has_at(a, 0, b);
    assert(a@.subrange(0, a@.len() as int) =~= a@);
    r
}

/// Whether `pat` occurs anywhere in `v`.
pub open spec fn contains_seq(v: Seq<char>, pat: Seq<char>) -> bool {
    exists|i: int| 0 <= i && i + pat.len() <= v.len() && #[trigger] v.subrange(i, i + pat.len()) == pat
}

/// Whether `pat` occurs anywhere in `v`.
pub fn contains_chars(v: &[char], pat: &[char]) -> (r: bool)
    ensures
        r == contains_seq(v@, pat@),
{
    let mut i: usize = 0;
    loop
        invariant
            i <= v@.len(),
            forall|j: int| 0 <= j < i && j + pat@.len() <= v@.len()
                ==> #[trigger] v@.subrange(j, j + pat@.len()) != pat@,
        decreases v@.len() - i,
    {
        if has_at(v, i, pat) {
            return true;
        }
        if i == v.len() {
            return false;
        }
        i += 1;
    }
}

// ── Whitespace ──────────────────────────────────────────────────────────────

/// The Unicode `White_Space` property, which `char::is_whitespace` tests.
pub open spec fn is_white(c: char) -> bool {
    ||| ('\u{9}' <= c && c <= '\u{d}')
    ||| c == ' '
    ||| c == '\u{85}'
    ||| c == '\u{a0}'
    ||| c == '\u{1680}'
    ||| ('\u{2000}' <= c && c <= '\u{200a}')
    ||| c == '\u{2028}'
    ||| c == '\u{2029}'
    ||| c == '\u{202f}'
    ||| c == '\u{205f}'
    ||| c == '\u{3000}'
}

/// Whether `c` is Unicode whitespace.
pub fn is_whitespace(c: char) -> (r: bool)
    ensures
        r == is_white(c),
{
    ('\u{9}' <= c && c <= '\u{d}') || c == ' ' || c == '\u{85}' || c == '\u{a0}' || c == '\u{1680}'
        || ('\u{2000}' <= c && c <= '\u{200a}') || c == '\u{2028}' || c == '\u{2029}'
        || c == '\u{202f}' || c == '\u{205f}' || c == '\u{3000}'
}

/// Number of leading whitespace characters of `s`.
pub open spec fn lead_ws(s: Seq<char>) -> nat
    decreases s.len(),
{
    if s.len() > 0 && is_white(s[0]) {
        1 + lead_ws(s.drop_first())
    } else {
        0
    }
}

/// Number of trailing whitespace characters of `s`.
pub open spec fn trail_ws(s: Seq<char>) -> nat
    decreases s.len(),
{
    if s.len() > 0 && is_white(s.last()) {
        1 + trail_ws(s.drop_last())
    } else {
        0
    }
}

/// `s` without leading and trailing whitespace (`str::trim`).
pub open spec fn trimmed(s: Seq<char>) -> Seq<char> {
    let a = lead_ws(s);
    if a == s.len() {
        Seq::empty()
    } else {
        s.subrange(a as int, s.len() - trail_ws(s))
    }
}

proof fn lemma_lead_ws_bound(s: Seq<char>)
    ensures
        lead_ws(s) <= s.len(),
        forall|j: int| 0 <= j < lead_ws(s) ==> is_white(#[trigger] s[j]),
        lead_ws(s) < s.len() ==> !is_white(s[lead_ws(s) as int]),
    decreases s.len(),
{
    if s.len() > 0 && is_white(s[0]) {
        lemma_lead_ws_bound(s.drop_first());
        assert forall|j: int| 0 <= j < lead_ws(s) implies is_white(#[trigger] s[j]) by {
            if j > 0 {
                assert(s[j] == s.drop_first()[j - 1]);
            }
        }
    }
}

proof fn lemma_trail_ws_bound(s: Seq<char>)
    ensures
        trail_ws(s) <= s.len(),
        forall|j: int| s.len() - trail_ws(s) <= j < s.len() ==> is_white(#[trigger] s[j]),
        trail_ws(s) < s.len() ==> !is_white(s[s.len() - trail_ws(s) - 1]),
    decreases s.len(),
{
    if s.len() > 0 && is_white(s.last()) {
        lemma_trail_ws_bound(s.drop_last());
        assert forall|j: int| s.len() - trail_ws(s) <= j < s.len() implies is_white(#[trigger] s[j]) by {
            if j < s.len() - 1 {
                assert(s[j] == s.drop_last()[j]);
            }
        }
    }
}

proof fn lemma_lead_ws_exact(s: Seq<char>, k: int)
    requires
        0 <= k <= s.len(),
        forall|j: int| 0 <= j < k ==> is_white(#[trigger] s[j]),
        k < s.len() ==> !is_white(s[k]),
    ensures
        lead_ws(s) == k,
    decreases s.len(),
{
    if k > 0 {
        let t = s.drop_first();
        assert forall|j: int| 0 <= j < k - 1 implies is_white(#[trigger] t[j]) by {
            assert(t[j] == s[j + 1]);
        }
        lemma_lead_ws_exact(t, k - 1);
    }
}

proof fn lemma_trail_ws_exact(s: Seq<char>, k: int)
    requires
        0 <= k <= s.len(),
        forall|j: int| s.len() - k <= j < s.len() ==> is_white(#[trigger] s[j]),
        k < s.len() ==> !is_white(s[s.len() - k - 1]),
    ensures
        trail_ws(s) == k,
    decreases s.len(),
{
    if k > 0 {
        let t = s.drop_last();
        assert forall|j: int| t.len() - (k - 1) <= j < t.len() implies is_white(#[trigger] t[j]) by {
            assert(t[j] == s[j]);
        }
        if k - 1 < t.len() {
            assert(t[t.len() - (k - 1) - 1] == s[s.len() - k - 1]);
        }
        lemma_trail_ws_exact(t, k - 1);
    }
}

/// The bounds `(lo, hi)` of `v[lo_in..hi_in]` with whitespace trimmed off both ends.
pub fn trim_bounds(v: &[char], lo_in: usize, hi_in: usize) -> (r: (usize, usize))
    requires
        lo_in <= hi_in <= v@.len(),
    ensures
        lo_in <= r.0 <= r.1 <= hi_in,
        v@.subrange(r.0 as int, r.1 as int) == trimmed(v@.subrange(lo_in as int, hi_in as int)),
{
    let ghost s = v@.subrange(lo_in as int, hi_in as int);
    let mut lo = lo_in;
    while lo < hi_in && is_whitespace(v[lo])
        invariant
            lo_in <= lo <= hi_in <= v@.len(),
            forall|j: int| lo_in <= j < lo ==> is_white(#[trigger] v@[j]),
        decreases hi_in - lo,
    {
        lo += 1;
    }
    proof {
        assert forall|j: int| 0 <= j < lo - lo_in implies is_white(#[trigger] s[j]) by {
            assert(s[j] == v@[lo_in + j]);
        }
        if lo < hi_in {
            assert(s[lo - lo_in] == v@[lo as int]);
        }
        lemma_lead_ws_exact(s, lo - lo_in);
    }
    if lo == hi_in {
        assert(v@.subrange(lo as int, lo as int) =~= Seq::<char>::empty());
        return (lo, lo);
    }
    let mut hi = hi_in;
    while hi > lo && is_whitespace(v[hi - 1])
        invariant
            lo_in <= lo < hi_in,
            lo <= hi <= hi_in <= v@.len(),
            !is_white(v@[lo as int]),
            forall|j: int| hi <= j < hi_in ==> is_white(#[trigger] v@[j]),
        decreases hi,
    {
        hi -= 1;
    }
    proof {
        assert(s[lo - lo_in] == v@[lo as int]);
        assert forall|j: int| s.len() - (hi_in - hi) <= j < s.len() implies is_white(#[trigger] s[j]) by {
            assert(s[j] == v@[lo_in + j]);
        }
        if hi_in - hi < s.len() {
            assert(s[s.len() - (hi_in - hi) - 1] == v@[hi - 1]);
        }
        lemma_trail_ws_exact(s, hi_in - hi);
        assert(v@.subrange(lo as int, hi as int) =~= s.subrange(lo - lo_in, s.len() - (hi_in - hi)));
    }
    (lo, hi)
}

// ── Decimal numerals ────────────────────────────────────────────────────────

/// The character of decimal digit `d`.
pub open spec fn digit_char(d: int) -> char {
    seq!['0', '1', '2', '3', '4', '5', '6', '7', '8', '9'][d]
}

/// Whether `c` is an ASCII decimal digit.
pub open spec fn is_digit(c: char) -> bool {
    '0' <= c && c <= '9'
}

/// The value of the ASCII digit `c`.
pub open spec fn digit_value(c: char) -> int {
    c as int - '0' as int
}

/// The shortest decimal numeral of `n` (as `u64`'s `Display` writes it).
pub open spec fn decimal(n: nat) -> Seq<char>
    decreases n,
{
    if n < 10 {
        seq![digit_char(n as int)]
    } else {
        decimal(n / 10).push(digit_char((n % 10) as int))
    }
}

/// Whether every character of `s` is an ASCII digit.
pub open spec fn all_digits(s: Seq<char>) -> bool {
    forall|i: int| 0 <= i < s.len() ==> is_digit(#[trigger] s[i])
}

/// The value of a string of decimal digits (leading zeros allowed).
pub open spec fn digits_value(s: Seq<char>) -> nat
    decreases s.len(),
{
    if s.len() == 0 {
        0
    } else {
        (digits_value(s.drop_last()) * 10 + digit_value(s.last())) as nat
    }
}

/// `u64::from_str`: an optional `+`, then one or more ASCII digits whose
/// value fits in a `u64`.
pub open spec fn parse_u64_spec(s: Seq<char>) -> Option<u64> {
    let digits = if s.len() > 0 && s[0] == '+' {
        s.drop_first()
    } else {
        s
    };
    if digits.len() > 0 && all_digits(digits) && digits_value(digits) <= u64::MAX {
        Some(digits_value(digits) as u64)
    } else {
        None
    }
}

/// The digit character for `d < 10`.
pub fn digit_to_char(d: u64) -> (c: char)
    requires
        d < 10,
    ensures
        c == digit_char(d as int),
{
    match d {
        0 => '0',
        1 => '1',
        2 => '2',
        3 => '3',
        4 => '4',
        5 => '5',
        6 => '6',
        7 => '7',
        8 => '8',
        _ => '9',
    }
}

proof fn lemma_digit_char(k: int)
    requires
        0 <= k < 10,
    ensures
        is_digit(digit_char(k)),
        digit_value(digit_char(k)) == k,
{
    let t = seq!['0', '1', '2', '3', '4', '5', '6', '7', '8', '9'];
    if k == 0 { assert(t[0] == '0'); }
    else if k == 1 { assert(t[1] == '1'); }
    else if k == 2 { assert(t[2] == '2'); }
    else if k == 3 { assert(t[3] == '3'); }
    else if k == 4 { assert(t[4] == '4'); }
    else if k == 5 { assert(t[5] == '5'); }
    else if k == 6 { assert(t[6] == '6'); }
    else if k == 7 { assert(t[7] == '7'); }
    else if k == 8 { assert(t[8] == '8'); }
    else { assert(t[9] == '9'); }
}

proof fn lemma_decimal_digits(n: nat)
    ensures
        all_digits(decimal(n)),
        decimal(n).len() >= 1,
        digits_value(decimal(n)) == n,
    decreases n,
{
    if n >= 10 {
        lemma_decimal_digits(n / 10);
        lemma_digit_char((n % 10) as int);
        let d = decimal(n / 10);
        assert(decimal(n).drop_last() == d);
        assert(decimal(n).last() == digit_char((n % 10) as int));
        assert(digits_value(decimal(n)) == digits_value(d) * 10 + digit_value(digit_char((n % 10) as int)));
        assert((n / 10) * 10 + n % 10 == n);
        assert forall|i: int| 0 <= i < decimal(n).len() implies is_digit(#[trigger] decimal(n)[i]) by {
            if i < d.len() {
                assert(decimal(n)[i] == d[i]);
            }
        }
    } else {
        lemma_digit_char(n as int);
        assert(decimal(n).drop_last() =~= Seq::<char>::empty());
        assert(decimal(n).last() == digit_char(n as int));
        assert(digits_value(Seq::<char>::empty()) == 0);
    }
}

/// Different numbers have different numerals.
pub proof fn lemma_decimal_injective(a: nat, b: nat)
    requires
        decimal(a) == decimal(b),
    ensures
        a == b,
{
    lemma_decimal_digits(a);
    lemma_decimal_digits(b);
}

/// Appends the decimal numeral of `n` to `s`.
pub fn push_decimal(s: &mut String, n: u64)
    ensures
        final(s)@ == old(s)@ + decimal(n as nat),
{
    let mut digits: Vec<char> = Vec::new();
    let mut m = n;
    loop
        invariant_except_break
            m <= n,
            decimal(n as nat) == decimal(m as nat) + digits@,
        ensures
            decimal(n as nat) == digits@,
        decreases m,
    {
        if m < 10 {
            let c = digit_to_char(m);
            digits.insert(0, c);
            assert(decimal(n as nat) =~= digits@);
            break;
        }
        let c = digit_to_char(m % 10);
        digits.insert(0, c);
        assert(decimal(m as nat) == decimal((m / 10) as nat).push(c));
        m = m / 10;
        assert(decimal(n as nat) =~= decimal(m as nat) + digits@);
    }
    push_chars(s, digits.as_slice(), 0, digits.len());
    assert(digits@.subrange(0, digits@.len() as int) =~= digits@);
}

/// The decimal numeral of `n`.
pub fn decimal_string(n: u64) -> (r: String)
    ensures
        r@ == decimal(n as nat),
{
    let mut r = String::new();
    push_decimal(&mut r, n);
    r
}

proof fn lemma_digits_prefix_le(s: Seq<char>, k: int)
    requires
        0 <= k <= s.len(),
        all_digits(s),
    ensures
        digits_value(s.subrange(0, k)) <= digits_value(s),
    decreases s.len(),
{
    if k < s.len() {
        let t = s.drop_last();
        assert(all_digits(t)) by {
            assert forall|i: int| 0 <= i < t.len() implies is_digit(#[trigger] t[i]) by {
                assert(t[i] == s[i]);
            }
        }
        lemma_digits_prefix_le(t, k);
        assert(t.subrange(0, k) == s.subrange(0, k));
        assert(is_digit(s.last()));
    } else {
        assert(s.subrange(0, k) == s);
    }
}

/// Parses `v[lo..hi]` as `u64::from_str` does.
pub fn parse_u64(v: &[char], lo: usize, hi: usize) -> (r: Option<u64>)
    requires
        lo <= hi <= v@.len(),
    ensures
        r == parse_u64_spec(v@.subrange(lo as int, hi as int)),
{
    let ghost s = v@.subrange(lo as int, hi as int);
    let mut start = lo;
    if hi > lo && v[lo] == '+' {
        start = lo + 1;
    }
    let ghost digits = v@.subrange(start as int, hi as int);
    assert(digits == (if s.len() > 0 && s[0] == '+' { s.drop_first() } else { s }));
    if start == hi {
        return None;
    }
    let mut acc: u64 = 0;
    let mut i = start;
    while i < hi
        invariant
            lo <= start <= i <= hi <= v@.len(),
            digits == v@.subrange(start as int, hi as int),
            s == v@.subrange(lo as int, hi as int),
            digits == (if s.len() > 0 && s[0] == '+' { s.drop_first() } else { s }),
            digits.len() > 0,
            all_digits(v@.subrange(start as int, i as int)),
            acc as nat == digits_value(v@.subrange(start as int, i as int)),
        decreases hi - i,
    {
        let c = v[i];
        let ghost pre = v@.subrange(start as int, i as int);
        let ghost next = v@.subrange(start as int, i + 1);
        assert(next.drop_last() == pre);
        if !('0' <= c && c <= '9') {
            assert(digits[i - start] == c);
            assert(!all_digits(digits));
            assert(parse_u64_spec(s) is None);
            return None;
        }
        let d = (c as u32 - '0' as u32) as u64;
        assert(all_digits(next)) by {
            assert forall|j: int| 0 <= j < next.len() implies is_digit(#[trigger] next[j]) by {
                if j < pre.len() {
                    assert(next[j] == pre[j]);
                }
            }
        }
        let ghost val = digits_value(next);
        assert(val == acc * 10 + d);
        if acc > (u64::MAX - d) / 10 {
            proof {
                assert(acc * 10 + d > u64::MAX) by (nonlinear_arith)
                    requires
                        acc > (u64::MAX - d) / 10,
                        d < 10,
                ;
                if all_digits(digits) {
                    lemma_digits_prefix_le(digits, i + 1 - start);
                    assert(digits.subrange(0, i + 1 - start) == next);
                }
                assert(parse_u64_spec(s) is None);
            }
            return None;
        }
        acc = acc * 10 + d;
        i += 1;
    }
    assert(v@.subrange(start as int, i as int) == digits);
    Some(acc)
}


// ── Searching and lines ─────────────────────────────────────────────────────

/// Index of the first `c` in `s`, or `s.len()` when there is none.
pub open spec fn first_index_of(s: Seq<char>, c: char) -> nat
    decreases s.len(),
{
    if s.len() == 0 {
        0
    } else if s[0] == c {
        0
    } else {
        1 + first_index_of(s.drop_first(), c)
    }
}

/// `k` is the first index of `c` in `s` when no earlier character is `c`
/// and `s[k]` is (or `k` is the length).
pub proof fn lemma_first_index_exact(s: Seq<char>, c: char, k: int)
    requires
        0 <= k <= s.len(),
        forall|j: int| 0 <= j < k ==> #[trigger] s[j] != c,
        k < s.len() ==> s[k] == c,
    ensures
        first_index_of(s, c) == k,
    decreases s.len(),
{
    if k > 0 {
        let t = s.drop_first();
        assert forall|j: int| 0 <= j < k - 1 implies #[trigger] t[j] != c by {
            assert(t[j] == s[j + 1]);
        }
        lemma_first_index_exact(t, c, k - 1);
    }
}

/// Position of the first `c` in `v[lo..hi]` (absolute), or `hi` when there is none.
pub fn find_char(v: &[char], lo: usize, hi: usize, c: char) -> (r: usize)
    requires
        lo <= hi <= v@.len(),
    ensures
        lo <= r <= hi,
        r - lo == first_index_of(v@.subrange(lo as int, hi as int), c),
{
    let mut i = lo;
    while i < hi && v[i] != c
        invariant
            lo <= i <= hi <= v@.len(),
            forall|j: int| lo <= j < i ==> #[trigger] v@[j] != c,
        decreases hi - i,
    {
        i += 1;
    }
    proof {
        let s = v@.subrange(lo as int, hi as int);
        assert forall|j: int| 0 <= j < i - lo implies #[trigger] s[j] != c by {
            assert(s[j] == v@[lo + j]);
        }
        if i < hi {
            assert(s[i - lo] == v@[i as int]);
        }
        lemma_first_index_exact(s, c, i - lo);
    }
    i
}

/// One line of `str::lines`: the text before a `\n`, without a `\r` just before it.
pub open spec fn strip_cr(l: Seq<char>) -> Seq<char> {
    if l.len() > 0 && l.last() == '\r' {
        l.drop_last()
    } else {
        l
    }
}

/// The lines of `s` as `str::lines` yields them: split at each `\n`, a `\r`
/// just before a `\n` removed, and no empty line after a final `\n`.
pub open spec fn text_lines(s: Seq<char>) -> Seq<Seq<char>>
    decreases s.len(),
{
    if s.len() == 0 {
        Seq::empty()
    } else {
        let i = first_index_of(s, '\n');
        if i >= s.len() {
            seq![s]
        } else {
            seq![strip_cr(s.subrange(0, i as int))] + text_lines(s.subrange(i + 1int, s.len() as int))
        }
    }
}


// ── Canonical decimal numerals ──────────────────────────────────────────────

proof fn lemma_digit_of_char(c: char)
    requires
        is_digit(c),
    ensures
        0 <= digit_value(c) < 10,
        digit_char(digit_value(c)) == c,
{
    lemma_digit_char(digit_value(c));
    let t = seq!['0', '1', '2', '3', '4', '5', '6', '7', '8', '9'];
    assert(t[digit_value(c)] as int - '0' as int == digit_value(c));
}

proof fn lemma_decimal_first(n: nat)
    requires
        n >= 1,
    ensures
        decimal(n)[0] != '0',
    decreases n,
{
    if n >= 10 {
        lemma_decimal_first(n / 10);
        lemma_decimal_digits(n / 10);
        assert(decimal(n)[0] == decimal(n / 10)[0]);
    } else {
        lemma_digit_char(n as int);
    }
}

proof fn lemma_digits_positive(s: Seq<char>)
    requires
        all_digits(s),
        s.len() >= 1,
        s[0] != '0',
    ensures
        digits_value(s) >= 1,
    decreases s.len(),
{
    lemma_digit_of_char(s[0]);
    if s.len() > 1 {
        let t = s.drop_last();
        assert(all_digits(t)) by {
            assert forall|i: int| 0 <= i < t.len() implies is_digit(#[trigger] t[i]) by {
                assert(t[i] == s[i]);
            }
        }
        assert(t[0] == s[0]);
        lemma_digits_positive(t);
        lemma_digit_of_char(s.last());
    } else {
        assert(s.drop_last().len() == 0);
        assert(s.last() == s[0]);
    }
}

proof fn lemma_canonical_decimal(s: Seq<char>)
    requires
        all_digits(s),
        s.len() >= 1,
        s.len() == 1 || s[0] != '0',
    ensures
        decimal(digits_value(s)) == s,
    decreases s.len(),
{
    lemma_digit_of_char(s.last());
    if s.len() == 1 {
        assert(s.drop_last().len() == 0);
        assert(s.last() == s[0]);
        assert(digits_value(s.drop_last()) == 0);
        assert(digits_value(s) == digit_value(s[0]));
        assert(decimal(digits_value(s)) == seq![digit_char(digit_value(s[0]))]);
        assert(decimal(digits_value(s)) =~= s);
    } else {
        let t = s.drop_last();
        assert(all_digits(t)) by {
            assert forall|i: int| 0 <= i < t.len() implies is_digit(#[trigger] t[i]) by {
                assert(t[i] == s[i]);
            }
        }
        assert(t[0] == s[0]);
        lemma_canonical_decimal(t);
        lemma_digits_positive(t);
        let v = digits_value(s);
        let d = digit_value(s.last());
        assert(v == digits_value(t) * 10 + d);
        assert(v / 10 == digits_value(t));
        assert(v % 10 == d);
        assert(decimal(v) == decimal(digits_value(t)).push(digit_char(d)));
        assert(decimal(v) =~= s);
    }
}

/// The `n` whose shortest decimal numeral is exactly `v[lo..hi]`, if any.
pub fn decimal_numeral_value(v: &[char], lo: usize, hi: usize) -> (r: Option<u64>)
    requires
        lo <= hi <= v@.len(),
    ensures
        match r {
            Some(n) => v@.subrange(lo as int, hi as int) == decimal(n as nat),
            None => forall|n: nat| n <= u64::MAX ==> v@.subrange(lo as int, hi as int) != #[trigger] decimal(n),
        },
{
    let ghost s = v@.subrange(lo as int, hi as int);
    if lo == hi {
        proof {
            assert forall|n: nat| n <= u64::MAX implies s != #[trigger] decimal(n) by {
                lemma_decimal_digits(n);
            }
        }
        return None;
    }
    let c = v[lo];
    assert(s[0] == c);
    if !('0' <= c && c <= '9') {
        proof {
            assert forall|n: nat| n <= u64::MAX implies s != #[trigger] decimal(n) by {
                lemma_decimal_digits(n);
                assert(is_digit(decimal(n)[0]));
            }
        }
        return None;
    }
    if hi - lo > 1 && c == '0' {
        proof {
            assert forall|n: nat| n <= u64::MAX implies s != #[trigger] decimal(n) by {
                lemma_decimal_digits(n);
                if n >= 1 {
                    lemma_decimal_first(n);
                } else {
                    assert(decimal(n).len() == 1);
                }
            }
        }
        return None;
    }
    let r = parse_u64(v, lo, hi);
    match r {
        Some(n) => {
            proof {
                assert(s.drop_first().len() < s.len() || s.len() == 0);
                lemma_canonical_decimal(s);
            }
            Some(n)
        },
        None => {
            proof {
                assert forall|n: nat| n <= u64::MAX implies s != #[trigger] decimal(n) by {
                    lemma_decimal_digits(n);
                }
            }
            None
        },
    }
}


/// Whether `s` holds exactly the characters of `lit`.
pub fn str_is(s: &str, lit: &str) -> (r: bool)
    ensures
        r == (s@ == lit@),
{
    let a = chars_of(s);
    let b = chars_of(lit);
    chars_equal(a.as_slice(), b.as_slice())
}

/// A string holding the characters of `s`.
pub fn string_of(s: &str) -> (r: String)
    ensures
        r@ == s@,
{
    let mut r = String::new();
    push_str(&mut r, s);
    r
}

/// A decimal numeral is digits only and parses back to its number.
pub proof fn lemma_parse_decimal(n: u64)
    ensures
        decimal(n as nat).len() >= 1,
        all_digits(decimal(n as nat)),
        parse_u64_spec(decimal(n as nat)) == Some(n),
{
    lemma_decimal_digits(n as nat);
    assert(is_digit(decimal(n as nat)[0]));
}

/// The digits of any decimal numeral.
pub proof fn lemma_decimal_all_digits(n: nat)
    ensures
        decimal(n).len() >= 1,
        all_digits(decimal(n)),
{
    lemma_decimal_digits(n);
}

/// Trimming leaves alone text that neither starts nor ends in whitespace.
pub proof fn lemma_trimmed_plain(s: Seq<char>)
    requires
        s.len() > 0,
        !is_white(s[0]),
        !is_white(s[s.len() - 1]),
    ensures
        trimmed(s) == s,
{
    lemma_lead_ws_exact(s, 0);
    lemma_trail_ws_exact(s, 0);
    assert(s.subrange(0, s.len() as int) =~= s);
}

} // verus!
