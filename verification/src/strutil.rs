//! Character- and digit-level helpers shared by the filename, duration,
//! size and timestamp parsers: digit classification, decimal values of digit
//! strings, decimal rendering of integers, and substring predicates.

use vstd::prelude::*;
use vstd::string::*;

verus! {

/// `c` is an ASCII decimal digit.
pub open spec fn is_digit(c: char) -> bool {
    48 <= c as int && c as int <= 57
}

/// Numeric value of one digit character.
pub open spec fn digit_val(c: char) -> int {
    c as int - 48
}

/// Every character of `s` is a decimal digit.
pub open spec fn all_digits(s: Seq<char>) -> bool {
    forall|i: int| 0 <= i < s.len() ==> is_digit(#[trigger] s[i])
}

/// Numeric value of a digit string, most significant digit first.
pub open spec fn digits_val(s: Seq<char>) -> int
    decreases s.len(),
{
    if s.len() == 0 {
        0
    } else {
        digits_val(s.drop_last()) * 10 + digit_val(s.last())
    }
}

/// The digit character for a value in `0..10`.
pub open spec fn char_of_digit(d: int) -> char {
    if d == 0 { '0' }
    else if d == 1 { '1' }
    else if d == 2 { '2' }
    else if d == 3 { '3' }
    else if d == 4 { '4' }
    else if d == 5 { '5' }
    else if d == 6 { '6' }
    else if d == 7 { '7' }
    else if d == 8 { '8' }
    else { '9' }
}

/// Decimal rendering of a non-negative integer, no leading zeros.
pub open spec fn dec_str(n: int) -> Seq<char>
    decreases n,
{
    if n < 10 {
        seq![char_of_digit(n)]
    } else {
        dec_str(n / 10).push(char_of_digit(n % 10))
    }
}

/// Decimal rendering of a signed integer.
pub open spec fn dec_str_i64(n: int) -> Seq<char> {
    if n >= 0 {
        dec_str(n)
    } else {
        seq!['-'] + dec_str(-n)
    }
}

/// `needle` occurs as a contiguous subsequence of `hay`.
pub open spec fn contains_seq(hay: Seq<char>, needle: Seq<char>) -> bool {
    exists|i: int|
        0 <= i && i + needle.len() <= hay.len() && #[trigger] hay.subrange(i, i + needle.len())
            == needle
}

pub proof fn lemma_digits_val_nonneg(s: Seq<char>)
    requires
        all_digits(s),
    ensures
        digits_val(s) >= 0,
    decreases s.len(),
{
    if s.len() > 0 {
        assert(all_digits(s.drop_last()));
        lemma_digits_val_nonneg(s.drop_last());
    }
}

/// Appending digits never decreases the value of a digit string.
pub proof fn lemma_digits_val_prefix_le(s: Seq<char>, k: int)
    requires
        all_digits(s),
        0 <= k <= s.len(),
    ensures
        digits_val(s.subrange(0, k)) <= digits_val(s),
    decreases s.len() - k,
{
    if k < s.len() {
        let t = s.subrange(0, k + 1);
        assert(t.drop_last() =~= s.subrange(0, k));
        assert(all_digits(s.subrange(0, k)));
        lemma_digits_val_nonneg(s.subrange(0, k));
        lemma_digits_val_prefix_le(s, k + 1);
    } else {
        assert(s.subrange(0, k) =~= s);
    }
}

/// Relies on std's `String::push`: appends exactly one character.
#[verifier::external_body]
pub(crate) fn string_push(s: &mut String, c: char)
    ensures
        final(s)@ == old(s)@ + seq![c],
{
    s.push(c);
}

/// The characters of `s`, in order, as a vector.
pub fn str_chars(s: &str) -> (r: Vec<char>)
    ensures
        r@ == s@,
{
    let n = s.unicode_len();
    let mut r: Vec<char> = Vec::new();
    let mut i: usize = 0;
    while i < n
        invariant
            i <= n,
            n == s@.len(),
            r@ == s@.subrange(0, i as int),
        decreases n - i,
    {
        let c = s.get_char(i);
        r.push(c);
        i = i + 1;
        assert(r@ =~= s@.subrange(0, i as int));
    }
    assert(s@.subrange(0, n as int) =~= s@);
    r
}

/// Appends `v[from..to]` to `out`.
pub fn push_chars(out: &mut String, v: &Vec<char>, from: usize, to: usize)
    requires
        from <= to <= v@.len(),
    ensures
        final(out)@ == old(out)@ + v@.subrange(from as int, to as int),
{
    let mut i: usize = from;
    while i < to
        invariant
            from <= i <= to <= v@.len(),
            out@ == old(out)@ + v@.subrange(from as int, i as int),
        decreases to - i,
    {
        string_push(out, v[i]);
        i = i + 1;
        assert(out@ =~= old(out)@ + v@.subrange(from as int, i as int));
    }
    assert(out@ =~= old(out)@ + v@.subrange(from as int, to as int));
}

/// The digit character for `d`, executable form of `char_of_digit`.
pub fn digit_char(d: u8) -> (c: char)
    requires
        d < 10,
    ensures
        c == char_of_digit(d as int),
{
    match d {
        0 => '0',
        1 => '1',
        2 => '2',
        3 => '3',
        4 => '4',
        5 => '5',
        6 => '6',
        7 => '7',
        8 => '8',
        _ => '9',
    }
}

/// Appends the decimal rendering of `n` to `out`.
pub fn push_u64(out: &mut String, n: u64)
    ensures
        final(out)@ == old(out)@ + dec_str(n as int),
    decreases n,
{
    if n < 10 {
        string_push(out, digit_char(n as u8));
    } else {
        push_u64(out, n / 10);
        string_push(out, digit_char((n % 10) as u8));
        assert(out@ =~= old(out)@ + dec_str(n as int));
    }
}

/// Appends the decimal rendering of a signed integer to `out`.
pub fn push_i64(out: &mut String, n: i64)
    ensures
        final(out)@ == old(out)@ + dec_str_i64(n as int),
{
    if n >= 0 {
        push_u64(out, n as u64);
    } else {
        string_push(out, '-');
        let m: u64 = (-(n as i128)) as u64;
        assert(m as int == -(n as int));
        push_u64(out, m);
        assert(out@ =~= old(out)@ + dec_str_i64(n as int));
    }
}

/// First index at or after `from` that does not hold a digit.
pub fn digit_run_end(v: &Vec<char>, from: usize) -> (r: usize)
    requires
        from <= v@.len(),
    ensures
        from <= r <= v@.len(),
        forall|i: int| from <= i < r ==> is_digit(#[trigger] v@[i]),
        r < v@.len() ==> !is_digit(v@[r as int]),
{
    let n = v.len();
    let mut i: usize = from;
    while i < n
        invariant
            from <= i <= n,
            n == v@.len(),
            forall|j: int| from <= j < i ==> is_digit(#[trigger] v@[j]),
        decreases n - i,
    {
        let c = v[i];
        if !(c >= '0' && c <= '9') {
            return i;
        }
        i = i + 1;
    }
    i
}

/// Parses the digit range `v[from..to]` as a `u64`; `None` on overflow.
pub fn parse_u64_range(v: &Vec<char>, from: usize, to: usize) -> (r: Option<u64>)
    requires
        from <= to <= v@.len(),
        all_digits(v@.subrange(from as int, to as int)),
    ensures
        match r {
            Some(x) => x as int == digits_val(v@.subrange(from as int, to as int)),
            None => digits_val(v@.subrange(from as int, to as int)) > u64::MAX,
        },
{
    let mut acc: u64 = 0;
    let mut i: usize = from;
    while i < to
        invariant
            from <= i <= to <= v@.len(),
            all_digits(v@.subrange(from as int, to as int)),
            acc as int == digits_val(v@.subrange(from as int, i as int)),
        decreases to - i,
    {
        let ghost pre = v@.subrange(from as int, i as int);
        assert(is_digit(v@[i as int])) by {
            assert(v@.subrange(from as int, to as int)[i - from] == v@[i as int]);
        }
        let d: u64 = (v[i] as u32 - 48) as u64;
        proof {
            assert(v@.subrange(from as int, i + 1).drop_last() =~= pre);
            assert(all_digits(pre)) by {
                assert(forall|j: int|
                    0 <= j < pre.len() ==> pre[j] == v@.subrange(from as int, to as int)[j]);
            }
            lemma_digits_val_nonneg(pre);
        }
        if acc > (u64::MAX - d) / 10 {
            proof {
                let md = (u64::MAX - d) as int;
                vstd::arithmetic::div_mod::lemma_fundamental_div_mod(md, 10);
                assert(acc as int * 10 >= (md / 10 + 1) * 10) by (nonlinear_arith)
                    requires acc as int >= md / 10 + 1;
                assert(digits_val(v@.subrange(from as int, i + 1)) > u64::MAX);
                assert(v@.subrange(from as int, to as int).subrange(0, i - from + 1) =~= v@
                    .subrange(from as int, i + 1));
                lemma_digits_val_prefix_le(v@.subrange(from as int, to as int), i - from + 1);
            }
            return None;
        }
        acc = acc * 10 + d;
        i = i + 1;
    }
    assert(v@.subrange(from as int, to as int) =~= v@.subrange(from as int, i as int));
    Some(acc)
}

/// `p` is a prefix of `v`.
pub fn chars_start_with(v: &Vec<char>, p: &Vec<char>) -> (r: bool)
    ensures
        r == p@.is_prefix_of(v@),
{
    if p.len() > v.len() {
        return false;
    }
    let r = match_at(v, p, 0);
    assert(v@.subrange(0, p@.len() as int) == p@ ==> p@.is_prefix_of(v@));
    r
}

/// `needle` occurs starting exactly at index `i` of `hay`.
pub fn match_at(hay: &Vec<char>, needle: &Vec<char>, i: usize) -> (r: bool)
    requires
        i + needle@.len() <= hay@.len(),
    ensures
        r == (hay@.subrange(i as int, i + needle@.len()) == needle@),
{
    let n = hay.len();
    let m = needle.len();
    let mut j: usize = 0;
    while j < m
        invariant
            i + m <= n,
            n == hay@.len(),
            m == needle@.len(),
            j <= m,
            forall|t: int| 0 <= t < j ==> hay@[i + t] == #[trigger] needle@[t],
        decreases m - j,
    {
        if hay[i + j] != needle[j] {
            assert(hay@.subrange(i as int, i + needle@.len())[j as int] == hay@[i + j]);
            return false;
        }
        j = j + 1;
    }
    assert(hay@.subrange(i as int, i + needle@.len()) =~= needle@) by {
        assert(forall|t: int|
            0 <= t < m ==> #[trigger] hay@.subrange(i as int, i + needle@.len())[t] == hay@[i
                + t]);
    }
    true
}

/// `needle` occurs somewhere in `hay`.
pub fn chars_contain(hay: &Vec<char>, needle: &Vec<char>) -> (r: bool)
    ensures
        r == contains_seq(hay@, needle@),
{
    let m = needle.len();
    let n = hay.len();
    if m > n {
        assert(!contains_seq(hay@, needle@));
        return false;
    }
    if m == 0 {
        assert(contains_seq(hay@, needle@)) by {
            assert(hay@.subrange(0, 0 + needle@.len() as int) =~= needle@);
        }
        return true;
    }
    let mut i: usize = 0;
    while i <= n - m
        invariant
            m <= n,
            m == needle@.len(),
            n == hay@.len(),
            1 <= m,
            i <= n - m + 1,
            forall|k: int|
                0 <= k < i ==> #[trigger] hay@.subrange(k, k + needle@.len()) != needle@,
        decreases n - m - i + 1,
    {
        if match_at(hay, needle, i) {
            return true;
        }
        i = i + 1;
    }
    assert(forall|k: int|
        0 <= k && k + needle@.len() <= hay@.len() ==> #[trigger] hay@.subrange(
            k, k + needle@.len()) != needle@);
    false
}

/// Character-for-character string equality.
pub fn str_eq(a: &str, b: &str) -> (r: bool)
    ensures
        r == (a@ == b@),
{
    let va = str_chars(a);
    let vb = str_chars(b);
    let n = va.len();
    if n != vb.len() {
        assert(a@.len() != b@.len());
        return false;
    }
    let mut i: usize = 0;
    while i < n
        invariant
            i <= n,
            n == va@.len() == vb@.len(),
            va@ == a@,
            vb@ == b@,
            forall|j: int| 0 <= j < i ==> va@[j] == vb@[j],
        decreases n - i,
    {
        if va[i] != vb[i] {
            assert(a@[i as int] != b@[i as int]);
            return false;
        }
        i = i + 1;
    }
    assert(a@ =~= b@);
    true
}


} // verus!
