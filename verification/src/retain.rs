//! Retention enforcer: picks the capture files of a spool directory, orders
//! them newest first by modification time, and computes the deletion plan
//! that bounds the spool by a file count or a total size budget.

use vstd::prelude::*;
use crate::strutil::{
    is_digit,
    digit_val,
    all_digits,
    digits_val,
    str_chars,
    digit_run_end,
    parse_u64_range,
    match_at,
    lemma_digits_val_nonneg,
};

verus! {

/// One candidate file: its path and the metadata the policies read.
pub struct FileInfo {
    pub path: String,
    pub size: u64,
    pub modified: u64,
}

impl FileInfo {
    /// A value-equal copy.
    pub fn duplicate(&self) -> (r: Self)
        ensures
            r == *self,
    {
        FileInfo { path: self.path.clone(), size: self.size, modified: self.modified }
    }
}

/// Which bound the enforcer applies: keep the newest N files, or keep the
/// newest files whose cumulative size stays within a byte budget.
pub enum RetentionPolicy {
    KeepCount(usize),
    MaxSize(u64),
}

/// Why no plan could be made: no policy was given, or the size budget did
/// not parse.
pub enum PolicyError {
    MissingPolicy,
    InvalidSize,
}

/// `suffix` ends `name`.
pub open spec fn has_suffix(name: Seq<char>, suffix: Seq<char>) -> bool {
    suffix.len() <= name.len() && name.subrange(
        name.len() - suffix.len(),
        name.len() as int,
    ) == suffix
}

/// A recognized capture-file name: one of the capture extensions, and the
/// optional prefix if one is set.
pub open spec fn spec_is_candidate(name: Seq<char>, prefix: Option<Seq<char>>) -> bool {
    &&& (has_suffix(name, ".pcap"@) || has_suffix(name, ".pcapng"@) || has_suffix(name, ".cap"@))
    &&& match prefix {
        Option::None => true,
        Option::Some(p) => p.is_prefix_of(name),
    }
}

fn ends_with_chars(v: &Vec<char>, suffix: &Vec<char>) -> (r: bool)
    ensures
        r == has_suffix(v@, suffix@),
{
    if suffix.len() > v.len() {
        return false;
    }
    match_at(v, suffix, v.len() - suffix.len())
}

/// Whether the retention scan takes this file: capture extension and, when a
/// prefix is set, a matching name start.
pub fn is_pcap_candidate(name: &str, prefix: Option<&String>) -> (r: bool)
    ensures
        r == spec_is_candidate(name@, crate::spool::spec_prefix_of(prefix)),
{
    let v = str_chars(name);
    let s1 = str_chars(".pcap");
    let s2 = str_chars(".pcapng");
    let s3 = str_chars(".cap");
    proof {
        reveal_strlit(".pcap");
        reveal_strlit(".pcapng");
        reveal_strlit(".cap");
    }
    let ext_ok = ends_with_chars(&v, &s1) || ends_with_chars(&v, &s2) || ends_with_chars(&v, &s3);
    if !ext_ok {
        return false;
    }
    match prefix {
        None => true,
        Some(p) => {
            let pv = str_chars(p.as_str());
            crate::strutil::chars_start_with(&v, &pv)
        },
    }
}

/// Newest first: modification times never ascend.
pub open spec fn sorted_newest_first(s: Seq<FileInfo>) -> bool {
    forall|i: int, j: int|
        0 <= i < j < s.len() ==> (#[trigger] s[i]).modified >= (#[trigger] s[j]).modified
}

fn newest_insert_pos(files: &Vec<FileInfo>, k: usize, modified: u64) -> (j: usize)
    requires
        k <= files@.len(),
    ensures
        j <= k,
        forall|t: int| j <= t < k ==> (#[trigger] files@[t]).modified < modified,
        j > 0 ==> files@[j - 1].modified >= modified,
{
    let mut j = k;
    while j > 0
        invariant
            j <= k <= files@.len(),
            forall|t: int| j <= t < k ==> (#[trigger] files@[t]).modified < modified,
        decreases j,
    {
        if files[j - 1].modified >= modified {
            return j;
        }
        j = j - 1;
    }
    0
}

/// Sorts the candidates by modification time, newest first; the result is a
/// permutation of the input.
#[verifier::rlimit(50)]
pub fn sort_files_newest_first(files: &mut Vec<FileInfo>)
    ensures
        sorted_newest_first(final(files)@),
        final(files)@.to_multiset() == old(files)@.to_multiset(),
{
    broadcast use vstd::multiset::group_multiset_axioms;

    let n = files.len();
    if n == 0 {
        return;
    }
    let mut k: usize = 1;
    while k < n
        invariant
            1 <= k <= n,
            n == files@.len(),
            sorted_newest_first(files@.subrange(0, k as int)),
            files@.to_multiset() == old(files)@.to_multiset(),
        decreases n - k,
    {
        let ghost before = files@;
        let x = files.remove(k);
        let ghost removed = files@;
        let j = newest_insert_pos(files, k, x.modified);
        files.insert(j, x);
        proof {
            broadcast use vstd::multiset::group_multiset_axioms;

            before.to_multiset_ensures();
            assert(removed.to_multiset() == before.to_multiset().remove(x));
            vstd::seq_lib::to_multiset_insert(removed, j as int, x);
            assert(before.to_multiset().contains(x)) by {
                assert(before[k as int] == x);
                assert(before.contains(x));
            }
            assert(files@.to_multiset() =~= before.to_multiset());
            assert(sorted_newest_first(files@.subrange(0, k + 1))) by {
                assert(forall|t: int|
                    0 <= t < k ==> #[trigger] removed[t] == before.subrange(0, k as int)[t]);
                removed.insert_ensures(j as int, x);
                assert forall|a: int, b: int| 0 <= a < b < k + 1 implies (#[trigger] files@
                    .subrange(0, k + 1)[a]).modified >= (#[trigger] files@.subrange(
                    0, k + 1)[b]).modified by {
                    let sa = files@[a];
                    let sb = files@[b];
                    if b < j {
                        assert(sa == removed[a] && sb == removed[b]);
                    } else if b == j {
                        assert(sa == removed[a]);
                    } else if a < j {
                        assert(sa == removed[a] && sb == removed[b - 1]);
                    } else if a == j {
                        assert(sb == removed[b - 1]);
                    } else {
                        assert(sa == removed[a - 1] && sb == removed[b - 1]);
                    }
                }
            }
        }
        k = k + 1;
    }
    assert(files@.subrange(0, n as int) =~= files@);
}

/// The count policy deletes everything after the first `keep_count` files.
pub fn calculate_files_to_delete_by_count(files: &Vec<FileInfo>, keep_count: usize) -> (r: Vec<
    FileInfo,
>)
    ensures
        files@.len() <= keep_count ==> r@ == Seq::<FileInfo>::empty(),
        files@.len() > keep_count ==> r@ == files@.skip(keep_count as int),
{
    let n = files.len();
    if n <= keep_count {
        return Vec::new();
    }
    copy_tail(files, keep_count)
}

/// Copies `files[from..]`.
fn copy_tail(files: &Vec<FileInfo>, from: usize) -> (r: Vec<FileInfo>)
    requires
        from <= files@.len(),
    ensures
        r@ == files@.skip(from as int),
{
    let n = files.len();
    let mut out: Vec<FileInfo> = Vec::new();
    let mut i: usize = from;
    while i < n
        invariant
            from <= i <= n,
            n == files@.len(),
            out@ == files@.subrange(from as int, i as int),
        decreases n - i,
    {
        let f = files[i].duplicate();
        out.push(f);
        assert(out@ =~= files@.subrange(from as int, i + 1));
        i = i + 1;
    }
    assert(files@.subrange(from as int, n as int) =~= files@.skip(from as int));
    out
}

/// The greedy size scan: starting at `i` with `budget` bytes left, the index
/// of the first file that no longer fits (everything from there on is
/// deleted).
pub open spec fn spec_keep_from(s: Seq<FileInfo>, budget: int, i: int) -> int
    decreases s.len() - i,
{
    if i < 0 || i >= s.len() || s[i].size > budget {
        i
    } else {
        spec_keep_from(s, budget - s[i].size, i + 1)
    }
}

/// The size policy keeps the longest newest-first prefix whose cumulative
/// size stays within the budget; the first file that would exceed it, and
/// everything older, is deleted.
fn size_keep_index(files: &Vec<FileInfo>, max_size_bytes: u64) -> (r: usize)
    ensures
        r <= files@.len(),
        r as int == spec_keep_from(files@, max_size_bytes as int, 0),
{
    let n = files.len();
    let mut budget: u64 = max_size_bytes;
    let mut i: usize = 0;
    while i < n
        invariant
            i <= n,
            n == files@.len(),
            spec_keep_from(files@, max_size_bytes as int, 0) == spec_keep_from(
                files@,
                budget as int,
                i as int,
            ),
        decreases n - i,
    {
        let sz = files[i].size;
        if sz > budget {
            assert(spec_keep_from(files@, budget as int, i as int) == i);
            return i;
        }
        budget = budget - sz;
        i = i + 1;
    }
    assert(spec_keep_from(files@, budget as int, i as int) == i);
    i
}

/// The size policy keeps the longest newest-first prefix whose cumulative
/// size stays within the budget; the first file that would exceed it, and
/// everything older, is deleted.
pub fn calculate_files_to_delete_by_size(files: &Vec<FileInfo>, max_size_bytes: u64) -> (r: Vec<
    FileInfo,
>)
    ensures
        r@ == files@.skip(spec_keep_from(files@, max_size_bytes as int, 0)),
{
    let keep = size_keep_index(files, max_size_bytes);
    copy_tail(files, keep)
}

/// Picks the retention policy exactly as configured: a keep-count if one is
/// given, else a parsed size budget; neither is a configuration error, and
/// so is a malformed size.
pub fn select_policy(keep_files: Option<usize>, max_size: Option<&String>) -> (r: Result<
    RetentionPolicy,
    PolicyError,
>)
    ensures
        match r {
            Ok(p) => match keep_files {
                Option::Some(n) => p == RetentionPolicy::KeepCount(n),
                Option::None => max_size matches Some(s) && spec_parse_size(s@) matches Some(b)
                    && p == RetentionPolicy::MaxSize(b),
            },
            Err(e) => match (keep_files, max_size) {
                (Option::None, Option::None) => e == PolicyError::MissingPolicy,
                (Option::None, Option::Some(s)) => spec_parse_size(s@) is None && e
                    == PolicyError::InvalidSize,
                _ => false,
            },
        },
{
    match keep_files {
        Some(n) => Ok(RetentionPolicy::KeepCount(n)),
        None => match max_size {
            Some(s) => match parse_size(s.as_str()) {
                Some(b) => Ok(RetentionPolicy::MaxSize(b)),
                None => Err(PolicyError::InvalidSize),
            },
            None => Err(PolicyError::MissingPolicy),
        },
    }
}

/// An ASCII blank that size strings may carry at either end.
pub open spec fn is_space(c: char) -> bool {
    c == ' ' || c == '\t' || c == '\n' || c == '\r'
}

/// First non-blank index at or after `from`.
pub open spec fn ws_run_end(s: Seq<char>, from: int) -> int
    decreases s.len() - from,
{
    if from < 0 || from >= s.len() {
        s.len() as int
    } else if !is_space(s[from]) {
        from
    } else {
        ws_run_end(s, from + 1)
    }
}

/// One past the last non-blank index strictly before `to`.
pub open spec fn ws_run_start(s: Seq<char>, to: int) -> int
    decreases to,
{
    if to <= 0 {
        0
    } else if !is_space(s[to - 1]) {
        to
    } else {
        ws_run_start(s, to - 1)
    }
}

/// `s` without leading and trailing blanks.
pub open spec fn spec_trim(s: Seq<char>) -> Seq<char> {
    let a = ws_run_end(s, 0);
    let b = ws_run_start(s, s.len() as int);
    if a <= b {
        s.subrange(a, b)
    } else {
        Seq::empty()
    }
}

/// The multiplier a size suffix stands for, case-insensitive.
pub open spec fn spec_mult_of(c: char) -> Option<int> {
    if c == 'K' || c == 'k' {
        Option::Some(1024)
    } else if c == 'M' || c == 'm' {
        Option::Some(1048576)
    } else if c == 'G' || c == 'g' {
        Option::Some(1073741824)
    } else {
        Option::None
    }
}

/// Ten to the `n`.
pub open spec fn pow10(n: nat) -> int
    decreases n,
{
    if n == 0 {
        1
    } else {
        10 * pow10((n - 1) as nat)
    }
}

/// First `.` of `s` at or after `from`.
pub open spec fn dot_from(s: Seq<char>, from: int) -> Option<int>
    decreases s.len() - from,
{
    if from < 0 || from >= s.len() {
        Option::None
    } else if s[from] == '.' {
        Option::Some(from)
    } else {
        dot_from(s, from + 1)
    }
}

/// The scaled value of a fraction-digit string: `0.f` times `mult`, rounded
/// down.
pub open spec fn frac_scaled(fr: Seq<char>, mult: int) -> int {
    (digits_val(fr) * mult) / pow10(fr.len())
}

/// The exact value of a decimal number string (integer part, optional `.`
/// and fraction digits, at least one digit) scaled by `mult` and rounded
/// down; `None` when the string is not such a number.
pub open spec fn spec_number_value(num: Seq<char>, mult: int) -> Option<int> {
    match dot_from(num, 0) {
        Option::None => if num.len() > 0 && all_digits(num) {
            Option::Some(digits_val(num) * mult)
        } else {
            Option::None
        },
        Option::Some(d) => {
            let ip = num.subrange(0, d);
            let fp = num.subrange(d + 1, num.len() as int);
            if ip.len() + fp.len() > 0 && all_digits(ip) && all_digits(fp) {
                Option::Some(digits_val(ip) * mult + frac_scaled(fp, mult))
            } else {
                Option::None
            }
        },
    }
}

/// Clamps a non-negative value into `u64`.
pub open spec fn sat_u64(v: int) -> u64 {
    if v > u64::MAX {
        u64::MAX
    } else if v < 0 {
        0u64
    } else {
        v as u64
    }
}

/// A size string: an optional `K`/`M`/`G` suffix (1024-based,
/// case-insensitive) on a decimal number that may carry a fraction, or a
/// bare whole-byte count; blanks at either end are ignored. A suffixed value
/// too large for `u64` saturates; a bare one fails.
pub open spec fn spec_parse_size(s: Seq<char>) -> Option<u64> {
    let t = spec_trim(s);
    if t.len() == 0 {
        Option::None
    } else {
        match spec_mult_of(t.last()) {
            Option::Some(m) => match spec_number_value(t.drop_last(), m) {
                Option::Some(v) => Option::Some(sat_u64(v)),
                Option::None => Option::None,
            },
            Option::None => if all_digits(t) && digits_val(t) <= u64::MAX {
                Option::Some(digits_val(t) as u64)
            } else {
                Option::None
            },
        }
    }
}

/// The fraction scan, highest digit first: each step folds one digit into
/// the scaled value.
pub open spec fn frac_rec(fr: Seq<char>, mult: int) -> int
    decreases fr.len(),
{
    if fr.len() == 0 {
        0
    } else {
        (digit_val(fr.first()) * mult + frac_rec(fr.drop_first(), mult)) / 10
    }
}

proof fn lemma_pow10_pos(n: nat)
    ensures
        pow10(n) >= 1,
    decreases n,
{
    if n > 0 {
        lemma_pow10_pos((n - 1) as nat);
    }
}

/// Leading-digit decomposition of a digit string's value.
proof fn lemma_digits_val_first(s: Seq<char>)
    requires
        s.len() >= 1,
    ensures
        digits_val(s) == digit_val(s.first()) * pow10((s.len() - 1) as nat) + digits_val(
            s.drop_first(),
        ),
    decreases s.len(),
{
    if s.len() == 1 {
        assert(s.drop_first().len() == 0);
        assert(s.drop_last().len() == 0);
        assert(s.last() == s.first());
        assert(digits_val(s.drop_last()) == 0);
        assert(digits_val(s) == digit_val(s.first()));
        assert(pow10(0) == 1);
        assert(digit_val(s.first()) * 1 == digit_val(s.first()));
    } else {
        let dl = s.drop_last();
        let df = s.drop_first();
        lemma_digits_val_first(dl);
        let d0 = digit_val(s.first());
        let rest = digits_val(dl.drop_first());
        let p = pow10((s.len() - 2) as nat);
        assert(dl.first() == s.first());
        assert(digits_val(dl) == d0 * p + rest);
        assert(digits_val(s) == digits_val(dl) * 10 + digit_val(s.last()));
        assert(df.drop_last() =~= dl.drop_first());
        assert(df.len() >= 1);
        assert(digits_val(df) == digits_val(df.drop_last()) * 10 + digit_val(df.last()));
        assert(df.last() == s.last());
        assert(digits_val(df) == rest * 10 + digit_val(s.last()));
        assert(pow10((s.len() - 1) as nat) == 10 * p);
        assert((d0 * p + rest) * 10 + digit_val(s.last()) == d0 * (10 * p) + (rest * 10
            + digit_val(s.last()))) by (nonlinear_arith);
    }
}

/// The digit-by-digit fraction scan computes exactly the scaled, rounded
/// value of the fraction.
proof fn lemma_frac_rec_val(fr: Seq<char>, mult: int)
    requires
        all_digits(fr),
        mult >= 1,
    ensures
        frac_rec(fr, mult) == frac_scaled(fr, mult),
    decreases fr.len(),
{
    if fr.len() == 0 {
        assert(pow10(0) == 1);
        assert(frac_scaled(fr, mult) == (0 * mult) / 1);
    } else {
        let f2 = fr.drop_first();
        assert(all_digits(f2));
        lemma_frac_rec_val(f2, mult);
        let d0 = digit_val(fr.first());
        let p = pow10(f2.len());
        lemma_pow10_pos(f2.len());
        lemma_digits_val_nonneg(f2);
        assert(digits_val(f2) * mult >= 0) by (nonlinear_arith)
            requires
                digits_val(f2) >= 0,
                mult >= 1,
        ;
        assert(d0 * mult >= 0) by (nonlinear_arith)
            requires
                d0 >= 0,
                mult >= 1,
        ;
        let b = digits_val(f2) * mult;
        let a = d0 * mult;
        vstd::arithmetic::div_mod::lemma_hoist_over_denominator(b, a, p as nat);
        assert(b / p + a == (b + a * p) / p);
        vstd::arithmetic::div_mod::lemma_div_denominator(b + a * p, p, 10);
        assert(((b + a * p) / p) / 10 == (b + a * p) / (p * 10));
        lemma_digits_val_first(fr);
        assert(digits_val(fr) == d0 * p + digits_val(f2));
        assert((d0 * p + digits_val(f2)) * mult == d0 * mult * p + digits_val(f2) * mult)
            by (nonlinear_arith);
        assert(digits_val(fr) * mult == a * p + b);
        assert(pow10(fr.len()) == 10 * p);
        assert(frac_rec(fr, mult) == (a + b / p) / 10);
        assert(b + a * p == a * p + b);
        assert(p * 10 == 10 * p);
        assert(frac_scaled(fr, mult) == (a * p + b) / (10 * p));
    }
}

proof fn lemma_ws_run_end_char(s: Seq<char>, from: int, r: int)
    requires
        0 <= from <= r <= s.len(),
        forall|i: int| from <= i < r ==> is_space(#[trigger] s[i]),
        r < s.len() ==> !is_space(s[r]),
    ensures
        ws_run_end(s, from) == r,
    decreases r - from,
{
    if from < r {
        lemma_ws_run_end_char(s, from + 1, r);
    }
}

proof fn lemma_ws_run_start_char(s: Seq<char>, to: int, r: int)
    requires
        0 <= r <= to <= s.len(),
        forall|i: int| r <= i < to ==> is_space(#[trigger] s[i]),
        r > 0 ==> !is_space(s[r - 1]),
    ensures
        ws_run_start(s, to) == r,
    decreases to - r,
{
    if r < to {
        lemma_ws_run_start_char(s, to - 1, r);
    }
}

proof fn lemma_dot_from_char(s: Seq<char>, from: int, r: Option<int>)
    requires
        0 <= from <= s.len(),
        match r {
            Option::Some(k) => from <= k < s.len() && s[k] == '.' && forall|i: int|
                from <= i < k ==> s[i] != '.',
            Option::None => forall|i: int| from <= i < s.len() ==> s[i] != '.',
        },
    ensures
        dot_from(s, from) == r,
    decreases s.len() - from,
{
    match r {
        Option::Some(k) => {
            if from < k {
                lemma_dot_from_char(s, from + 1, r);
            }
        },
        Option::None => {
            if from < s.len() {
                lemma_dot_from_char(s, from + 1, r);
            }
        },
    }
}

fn exec_mult_of(c: char) -> (r: Option<u64>)
    ensures
        match r {
            Some(m) => spec_mult_of(c) == Some(m as int),
            None => spec_mult_of(c) is None,
        },
{
    if c == 'K' || c == 'k' {
        Some(1024)
    } else if c == 'M' || c == 'm' {
        Some(1048576)
    } else if c == 'G' || c == 'g' {
        Some(1073741824)
    } else {
        None
    }
}

fn is_space_char(c: char) -> (r: bool)
    ensures
        r == is_space(c),
{
    c == ' ' || c == '\t' || c == '\n' || c == '\r'
}

fn trim_start_idx(v: &Vec<char>) -> (a: usize)
    ensures
        a <= v@.len(),
        forall|i: int| 0 <= i < a ==> is_space(#[trigger] v@[i]),
        a < v@.len() ==> !is_space(v@[a as int]),
{
    let n = v.len();
    let mut a: usize = 0;
    while a < n
        invariant
            a <= n,
            n == v@.len(),
            forall|i: int| 0 <= i < a ==> is_space(#[trigger] v@[i]),
        decreases n - a,
    {
        if !is_space_char(v[a]) {
            return a;
        }
        a = a + 1;
    }
    a
}

fn trim_end_idx(v: &Vec<char>, a: usize) -> (b: usize)
    requires
        a <= v@.len(),
    ensures
        a <= b <= v@.len(),
        forall|i: int| b <= i < v@.len() ==> is_space(#[trigger] v@[i]),
        b > a ==> !is_space(v@[b - 1]),
{
    let n = v.len();
    let mut b: usize = n;
    while b > a
        invariant
            a <= b <= n,
            n == v@.len(),
            forall|i: int| b <= i < n ==> is_space(#[trigger] v@[i]),
        decreases b,
    {
        if !is_space_char(v[b - 1]) {
            return b;
        }
        b = b - 1;
    }
    b
}

fn find_dot(v: &Vec<char>, from: usize, to: usize) -> (d: usize)
    requires
        from <= to <= v@.len(),
    ensures
        from <= d <= to,
        forall|i: int| from <= i < d ==> v@[i] != '.',
        d < to ==> v@[d as int] == '.',
{
    let mut d: usize = from;
    while d < to
        invariant
            from <= d <= to <= v@.len(),
            forall|i: int| from <= i < d ==> v@[i] != '.',
        decreases to - d,
    {
        if v[d] == '.' {
            return d;
        }
        d = d + 1;
    }
    d
}

/// Parses a size string into bytes: bare whole bytes, or a decimal number
/// (fraction allowed) with a 1024-based `K`/`M`/`G` suffix in either case;
/// blanks at the ends are ignored, a suffixed value beyond `u64` saturates.
pub fn parse_size(size_str: &str) -> (r: Option<u64>)
    ensures
        r == spec_parse_size(size_str@),
{
    let v = str_chars(size_str);
    let n = v.len();
    let a = trim_start_idx(&v);
    let b = trim_end_idx(&v, a);
    proof {
        if a < b {
            lemma_ws_run_end_char(v@, 0, a as int);
            lemma_ws_run_start_char(v@, n as int, b as int);
        } else {
            assert(forall|i: int| 0 <= i < n ==> is_space(#[trigger] v@[i]));
            lemma_ws_run_end_char(v@, 0, n as int);
            lemma_ws_run_start_char(v@, n as int, 0);
        }
    }
    let ghost t = spec_trim(size_str@);
    if a >= b {
        assert(t.len() == 0);
        return None;
    }
    assert(t == v@.subrange(a as int, b as int));
    assert(forall|i: int| 0 <= i < t.len() ==> #[trigger] t[i] == v@[a + i]);
    let last = v[b - 1];
    assert(t.last() == v@[b - 1]);
    match exec_mult_of(last) {
        Some(m) => {
            let num_end = b - 1;
            assert(t.drop_last() =~= v@.subrange(a as int, num_end as int));
            parse_scaled_number(&v, a, num_end, m)
        },
        None => {
            // bare decimal byte count
            let e = digit_run_end(&v, a);
            if e < b {
                assert(t[e - a] == v@[e as int]);
                assert(!all_digits(t));
                return None;
            }
            assert(all_digits(t));
            match parse_u64_range(&v, a, b) {
                Some(x) => {
                    assert(x as int == digits_val(t));
                    Some(x)
                },
                None => {
                    assert(digits_val(t) > u64::MAX);
                    None
                },
            }
        },
    }
}

/// Parses `v[from..to]` as a decimal number with optional fraction, scaled
/// by `mult` and rounded down, saturating at `u64::MAX`.
fn parse_scaled_number(v: &Vec<char>, from: usize, to: usize, mult: u64) -> (r: Option<u64>)
    requires
        from <= to <= v@.len(),
        1024 <= mult <= 1073741824,
    ensures
        ({
            let num = v@.subrange(from as int, to as int);
            match spec_number_value(num, mult as int) {
                Option::Some(val) => r == Some(sat_u64(val)),
                Option::None => r is None,
            }
        }),
{
    let ghost num = v@.subrange(from as int, to as int);
    assert(forall|i: int| 0 <= i < num.len() ==> #[trigger] num[i] == v@[from + i]);
    let d = find_dot(v, from, to);
    if d == to {
        // no fraction: all digits required
        proof {
            lemma_dot_from_char(num, 0, Option::None);
        }
        let e = digit_run_end(v, from);
        if from == to {
            return None;
        }
        if e < to {
            assert(num[e - from] == v@[e as int]);
            assert(!all_digits(num));
            return None;
        }
        assert(all_digits(num));
        let i_val = parse_u64_range(v, from, to);
        proof {
            assert(pow10(0) == 1);
            assert(digits_val(Seq::<char>::empty()) == 0);
            assert(frac_scaled(Seq::empty(), mult as int) == (0 * mult as int) / 1);
        }
        int_times_mult(i_val, 0, mult, Ghost(num), Ghost(Seq::empty()))
    } else {
        proof {
            assert(num[d - from] == v@[d as int]);
            lemma_dot_from_char(num, 0, Option::Some(d - from));
        }
        let ghost ip = num.subrange(0, d - from);
        let ghost fp = num.subrange(d - from + 1, num.len() as int);
        assert(ip =~= v@.subrange(from as int, d as int));
        assert(fp =~= v@.subrange(d + 1, to as int));
        if to - from <= 1 {
            // just the dot: no digit at all
            assert(ip.len() + fp.len() == 0);
            return None;
        }
        let e1 = digit_run_end(v, from);
        if e1 < d {
            assert(ip[e1 - from] == v@[e1 as int]);
            assert(!all_digits(ip));
            return None;
        }
        assert(all_digits(ip)) by {
            assert(forall|i: int| 0 <= i < ip.len() ==> #[trigger] ip[i] == v@[from + i]);
        }
        let e2 = digit_run_end(v, d + 1);
        if e2 < to {
            assert(fp[e2 - d - 1] == v@[e2 as int]);
            assert(!all_digits(fp));
            return None;
        }
        assert(all_digits(fp)) by {
            assert(forall|i: int| 0 <= i < fp.len() ==> #[trigger] fp[i] == v@[d + 1 + i]);
        }
        // fraction scan, lowest digit first
        let mut x: u64 = 0;
        let mut j: usize = to;
        assert(v@.subrange(to as int, to as int) =~= Seq::<char>::empty());
        while j > d + 1
            invariant
                d + 1 <= j <= to <= v@.len(),
                1024 <= mult <= 1073741824,
                fp =~= v@.subrange(d + 1, to as int),
                all_digits(fp),
                forall|i: int| 0 <= i < fp.len() ==> #[trigger] fp[i] == v@[d + 1 + i],
                x as int == frac_rec(v@.subrange(j as int, to as int), mult as int),
                x <= mult,
            decreases j,
        {
            let ghost sub_old = v@.subrange(j as int, to as int);
            j = j - 1;
            assert(is_digit(v@[j as int])) by {
                assert(fp[j - d - 1] == v@[j as int]);
            }
            let dg: u64 = (v[j] as u32 - 48) as u64;
            let ghost sub_new = v@.subrange(j as int, to as int);
            assert(sub_new.drop_first() =~= sub_old);
            assert(sub_new.first() == v@[j as int]);
            assert(dg <= 9);
            assert(dg * mult <= 9 * 1073741824) by (nonlinear_arith)
                requires
                    dg <= 9,
                    mult <= 1073741824,
            ;
            let y = dg * mult + x;
            x = y / 10;
            proof {
                assert(x as int == frac_rec(sub_new, mult as int));
                assert(y <= 10 * mult) by (nonlinear_arith)
                    requires
                        dg <= 9,
                        x <= mult || true,
                        y == dg * mult + (frac_rec(sub_old, mult as int)),
                        frac_rec(sub_old, mult as int) <= mult,
                        mult >= 1,
                ;
                vstd::arithmetic::div_mod::lemma_div_is_ordered(
                    y as int,
                    10 * mult as int,
                    10,
                );
                vstd::arithmetic::div_mod::lemma_div_multiples_vanish(mult as int, 10);
            }
        }
        assert(v@.subrange(d + 1, to as int) =~= fp);
        proof {
            lemma_frac_rec_val(fp, mult as int);
        }
        assert(x as int == frac_scaled(fp, mult as int));
        let i_val = parse_u64_range(v, from, d);
        int_times_mult(i_val, x, mult, Ghost(ip), Ghost(fp))
    }
}

/// Combines integer part, scaled fraction and multiplier, saturating at
/// `u64::MAX`.
fn int_times_mult(
    i_val: Option<u64>,
    frac: u64,
    mult: u64,
    Ghost(ip): Ghost<Seq<char>>,
    Ghost(fp): Ghost<Seq<char>>,
) -> (r: Option<u64>)
    requires
        all_digits(ip),
        match i_val {
            Some(x) => x as int == digits_val(ip),
            None => digits_val(ip) > u64::MAX,
        },
        frac as int == frac_scaled(fp, mult as int),
        frac <= mult,
        1024 <= mult <= 1073741824,
    ensures
        r == Some(sat_u64(digits_val(ip) * mult + frac_scaled(fp, mult as int))),
{
    let ghost total = digits_val(ip) * mult + frac_scaled(fp, mult as int);
    match i_val {
        Some(x) => {
            assert((x as int) * (mult as int) <= 0xffffffffffffffff * 0x40000000)
                by (nonlinear_arith)
                requires
                    0 <= x <= 0xffffffffffffffff,
                    0 <= mult <= 0x40000000,
            ;
            let wide: u128 = (x as u128) * (mult as u128) + (frac as u128);
            assert(wide == total);
            if wide > u64::MAX as u128 {
                assert(sat_u64(total) == u64::MAX);
                Some(u64::MAX)
            } else {
                assert(digits_val(ip) * (mult as int) >= 0) by (nonlinear_arith)
                    requires
                        digits_val(ip) >= 0,
                        mult >= 1,
                ;
                proof {
                    lemma_digits_val_nonneg(ip);
                }
                assert(sat_u64(total) == wide as u64);
                Some(wide as u64)
            }
        },
        None => {
            assert(digits_val(ip) * (mult as int) > u64::MAX) by (nonlinear_arith)
                requires
                    digits_val(ip) > u64::MAX,
                    mult >= 1024,
            ;
            assert(sat_u64(total) == u64::MAX);
            Some(u64::MAX)
        },
    }
}

} // verus!
