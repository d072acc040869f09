//! Spool indexer: parses rotated capture-file names into (producer id,
//! start timestamp), groups files by producer, orders each group by
//! timestamp, and prunes files whose validity interval cannot meet a
//! requested time window.

use vstd::prelude::*;
use crate::strutil::{is_digit, all_digits, digits_val, str_chars, digit_run_end, parse_u64_range, chars_start_with};

verus! {

/// One capture file of a spool, with the producer id and start timestamp
/// recovered from its name.
pub struct CaptureFile {
    pub path: String,
    pub producer: u64,
    pub timestamp: u64,
    pub size: u64,
    pub modified: u64,
}

/// A directory entry handed in by the caller: the bare file name, the full
/// path, and file metadata.
pub struct DirEntry {
    pub name: String,
    pub path: String,
    pub size: u64,
    pub modified: u64,
}

/// All files of one producer, ordered by start timestamp.
pub struct SpoolGroup {
    pub producer: u64,
    pub files: Vec<CaptureFile>,
}

impl CaptureFile {
    /// A value-equal copy.
    pub fn duplicate(&self) -> (r: Self)
        ensures
            r == *self,
    {
        CaptureFile {
            path: self.path.clone(),
            producer: self.producer,
            timestamp: self.timestamp,
            size: self.size,
            modified: self.modified,
        }
    }
}

/// Position of the first `.` that is directly followed by a digit, scanning
/// left to right from `from`; the scan fails on a line break, which the
/// filename grammar does not cross.
pub open spec fn match_start(s: Seq<char>, from: int) -> Option<int>
    decreases s.len() - from,
{
    if from < 0 || from >= s.len() {
        None
    } else if s[from] == '.' && from + 1 < s.len() && is_digit(s[from + 1]) {
        Some(from)
    } else if s[from] == '\n' {
        None
    } else {
        match_start(s, from + 1)
    }
}

/// First index at or after `from` that does not hold a digit.
pub open spec fn run_end(s: Seq<char>, from: int) -> int
    decreases s.len() - from,
{
    if from < 0 || from >= s.len() {
        s.len() as int
    } else if !is_digit(s[from]) {
        from
    } else {
        run_end(s, from + 1)
    }
}

/// Value of a captured digit group; a group whose value exceeds `u64::MAX`
/// counts as 0.
pub open spec fn group_val(s: Seq<char>) -> u64 {
    if digits_val(s) <= u64::MAX {
        digits_val(s) as u64
    } else {
        0u64
    }
}

/// The filename grammar `prefix.N(.M)?`: the first dot-digit boundary opens
/// the first digit group; a second group directly follows if present. The
/// smaller captured value is the producer id, the larger the timestamp, so a
/// name with a single group has producer 0.
pub open spec fn spec_parse_filename(s: Seq<char>) -> Option<(u64, u64)> {
    match match_start(s, 0) {
        Option::None => Option::None,
        Option::Some(p) => {
            let e1 = run_end(s, p + 1);
            let a = group_val(s.subrange(p + 1, e1));
            let b = if e1 < s.len() && s[e1] == '.' && e1 + 1 < s.len() && is_digit(s[e1 + 1]) {
                group_val(s.subrange(e1 + 1, run_end(s, e1 + 1)))
            } else {
                0u64
            };
            if a > b {
                Option::Some((b, a))
            } else {
                Option::Some((a, b))
            }
        },
    }
}

pub(crate) proof fn lemma_run_end_char(s: Seq<char>, from: int, r: int)
    requires
        0 <= from <= r <= s.len(),
        forall|i: int| from <= i < r ==> is_digit(#[trigger] s[i]),
        r < s.len() ==> !is_digit(s[r]),
    ensures
        run_end(s, from) == r,
    decreases r - from,
{
    if from < r {
        lemma_run_end_char(s, from + 1, r);
    }
}

/// Finds the first dot-digit boundary of the name, with the facts the parser
/// needs about that position.
fn find_match_start(v: &Vec<char>) -> (r: Option<usize>)
    ensures
        match r {
            Some(p) => match_start(v@, 0) == Some(p as int) && p + 1 < v@.len() && v@[p as int]
                == '.' && is_digit(v@[p + 1]),
            None => match_start(v@, 0) is None,
        },
{
    let n = v.len();
    let mut i: usize = 0;
    while i < n
        invariant
            i <= n,
            n == v@.len(),
            match_start(v@, 0) == match_start(v@, i as int),
        decreases n - i,
    {
        let c = v[i];
        if c == '.' && i + 1 < n {
            let d = v[i + 1];
            if d >= '0' && d <= '9' {
                return Some(i);
            }
        }
        if c == '\n' {
            return None;
        }
        assert(match_start(v@, i as int) == match_start(v@, i + 1));
        i = i + 1;
    }
    None
}

/// Recovers `(producer, timestamp)` from a rotated capture-file name of the
/// form `prefix.P.T` or `prefix.T` (producer defaults to 0; an ambiguously
/// ordered pair is reordered so the smaller value is the producer).
pub fn parse_filename(name: &str) -> (r: Option<(u64, u64)>)
    ensures
        r == spec_parse_filename(name@),
{
    let v = str_chars(name);
    let n = v.len();
    let p = match find_match_start(&v) {
        Some(p) => p,
        None => {
            return None;
        },
    };
    let e1 = digit_run_end(&v, p + 1);
    proof {
        lemma_run_end_char(v@, p + 1, e1 as int);
    }
    assert(all_digits(v@.subrange(p + 1, e1 as int))) by {
        assert(forall|j: int|
            0 <= j < e1 - p - 1 ==> #[trigger] v@.subrange(p + 1, e1 as int)[j] == v@[p + 1 + j]);
    }
    let a: u64 = match parse_u64_range(&v, p + 1, e1) {
        Some(x) => x,
        None => 0,
    };
    assert(a == group_val(v@.subrange(p + 1, e1 as int)));
    let mut b: u64 = 0;
    if e1 < n {
        let c = v[e1];
        if c == '.' && e1 + 1 < n {
            let d = v[e1 + 1];
            if d >= '0' && d <= '9' {
                let e2 = digit_run_end(&v, e1 + 1);
                proof {
                    lemma_run_end_char(v@, e1 + 1, e2 as int);
                }
                assert(all_digits(v@.subrange(e1 + 1, e2 as int))) by {
                    assert(forall|j: int|
                        0 <= j < e2 - e1 - 1 ==> #[trigger] v@.subrange(e1 + 1, e2 as int)[j]
                            == v@[e1 + 1 + j]);
                }
                b = match parse_u64_range(&v, e1 + 1, e2) {
                    Some(x) => x,
                    None => 0,
                };
                assert(b == group_val(v@.subrange(e1 + 1, e2 as int)));
            }
        }
    }
    if a > b {
        Some((b, a))
    } else {
        Some((a, b))
    }
}

/// The caller keeps an entry when no prefix filter is set or the name starts
/// with the prefix.
pub open spec fn entry_kept(e: DirEntry, prefix: Option<Seq<char>>) -> bool {
    match prefix {
        Option::None => true,
        Option::Some(p) => p.is_prefix_of(e.name@),
    }
}

/// The capture file an entry parses to.
pub open spec fn entry_file(e: DirEntry, id: u64, ts: u64) -> CaptureFile {
    CaptureFile { path: e.path, producer: id, timestamp: ts, size: e.size, modified: e.modified }
}

/// Scans entries in order: drops those the prefix filter rejects, parses the
/// rest; the whole scan fails on the first unparsable name.
pub open spec fn spec_scan(entries: Seq<DirEntry>, prefix: Option<Seq<char>>) -> Option<
    Seq<CaptureFile>,
>
    decreases entries.len(),
{
    if entries.len() == 0 {
        Option::Some(Seq::empty())
    } else {
        match spec_scan(entries.drop_last(), prefix) {
            Option::None => Option::None,
            Option::Some(rest) => {
                let e = entries.last();
                if !entry_kept(e, prefix) {
                    Option::Some(rest)
                } else {
                    match spec_parse_filename(e.name@) {
                        Option::None => Option::None,
                        Option::Some((id, ts)) => Option::Some(rest.push(entry_file(e, id, ts))),
                    }
                }
            },
        }
    }
}

/// Parses every entry that passes the prefix filter; returns `None` on the
/// first unparsable name, after which the caller must fall back to an
/// unordered scan.
pub fn scan_entries(entries: &Vec<DirEntry>, prefix: Option<&String>) -> (r: Option<
    Vec<CaptureFile>,
>)
    ensures
        match r {
            Some(files) => spec_scan(entries@, spec_prefix_of(prefix)) == Some(files@),
            None => spec_scan(entries@, spec_prefix_of(prefix)) is None,
        },
{
    let ghost pview = spec_prefix_of(prefix);
    let n = entries.len();
    let mut out: Vec<CaptureFile> = Vec::new();
    let mut i: usize = 0;
    while i < n
        invariant
            i <= n,
            n == entries@.len(),
            pview == spec_prefix_of(prefix),
            spec_scan(entries@.subrange(0, i as int), pview) == Some(out@),
        decreases n - i,
    {
        let e = &entries[i];
        assert(entries@.subrange(0, i + 1).drop_last() =~= entries@.subrange(0, i as int));
        assert(entries@.subrange(0, i + 1).last() == entries@[i as int]);
        let kept = match prefix {
            None => true,
            Some(p) => {
                let pv = str_chars(p.as_str());
                let nv = str_chars(e.name.as_str());
                chars_start_with(&nv, &pv)
            },
        };
        assert(kept == entry_kept(entries@[i as int], pview));
        let ghost pre = out@;
        if kept {
            match parse_filename(e.name.as_str()) {
                Some((id, ts)) => {
                    out.push(
                        CaptureFile {
                            path: e.path.clone(),
                            producer: id,
                            timestamp: ts,
                            size: e.size,
                            modified: e.modified,
                        },
                    );
                    assert(out@ == pre.push(entry_file(entries@[i as int], id, ts)));
                },
                None => {
                    proof {
                        lemma_scan_extend_none(entries@, pview, i as int);
                    }
                    return None;
                },
            }
        }
        i = i + 1;
    }
    assert(entries@.subrange(0, n as int) =~= entries@);
    Some(out)
}

/// The view of an optional prefix filter.
pub open spec fn spec_prefix_of(prefix: Option<&String>) -> Option<Seq<char>> {
    match prefix {
        Option::None => Option::None,
        Option::Some(p) => Option::Some(p@),
    }
}

proof fn lemma_scan_extend_none(entries: Seq<DirEntry>, prefix: Option<Seq<char>>, i: int)
    requires
        0 <= i < entries.len(),
        entry_kept(entries[i], prefix),
        spec_parse_filename(entries[i].name@) is None,
    ensures
        spec_scan(entries, prefix) is None,
    decreases entries.len() - i,
{
    if i == entries.len() - 1 {
        assert(entries.last() == entries[i]);
    } else {
        assert(entries.drop_last()[i] == entries[i]);
        lemma_scan_extend_none(entries.drop_last(), prefix, i);
    }
}

/// The files of `s` with producer `id`, in input order.
pub open spec fn files_of(s: Seq<CaptureFile>, id: u64) -> Seq<CaptureFile>
    decreases s.len(),
{
    if s.len() == 0 {
        Seq::empty()
    } else {
        let rest = files_of(s.drop_last(), id);
        if s.last().producer == id {
            rest.push(s.last())
        } else {
            rest
        }
    }
}

/// Some file of `s` carries producer `id`.
pub open spec fn has_producer(s: Seq<CaptureFile>, id: u64) -> bool {
    exists|i: int| 0 <= i < s.len() && (#[trigger] s[i]).producer == id
}

fn contains_u64(v: &Vec<u64>, x: u64) -> (r: bool)
    ensures
        r == v@.contains(x),
{
    let n = v.len();
    let mut i: usize = 0;
    while i < n
        invariant
            i <= n,
            n == v@.len(),
            forall|j: int| 0 <= j < i ==> v@[j] != x,
        decreases n - i,
    {
        if v[i] == x {
            return true;
        }
        i = i + 1;
    }
    false
}

/// The distinct producer ids of `files`, in first-seen order.
fn producer_ids(files: &Vec<CaptureFile>) -> (r: Vec<u64>)
    ensures
        forall|g: int, h: int| 0 <= g < h < r@.len() ==> r@[g] != r@[h],
        forall|id: u64| #[trigger] r@.contains(id) <==> has_producer(files@, id),
{
    let n = files.len();
    let mut ids: Vec<u64> = Vec::new();
    let mut i: usize = 0;
    while i < n
        invariant
            i <= n,
            n == files@.len(),
            forall|g: int, h: int| 0 <= g < h < ids@.len() ==> ids@[g] != ids@[h],
            forall|id: u64| #[trigger] ids@.contains(id) <==> has_producer(
                files@.subrange(0, i as int), id),
        decreases n - i,
    {
        let id = files[i].producer;
        let ghost pre = ids@;
        if !contains_u64(&ids, id) {
            ids.push(id);
        }
        proof {
            assert forall|q: u64| #[trigger] ids@.contains(q) implies has_producer(
                files@.subrange(0, i + 1), q) by {
                if pre.contains(q) {
                    let w = choose|k: int|
                        0 <= k < i && (#[trigger] files@.subrange(0, i as int)[k]).producer == q;
                    assert((files@.subrange(0, i + 1)[w]).producer == q);
                } else {
                    let w = choose|k: int| 0 <= k < ids@.len() && ids@[k] == q;
                    assert(w == pre.len());
                    assert(q == id);
                    assert((files@.subrange(0, i + 1)[i as int]).producer == q);
                }
            }
            assert forall|q: u64| has_producer(files@.subrange(0, i + 1), q) implies #[trigger]
                ids@.contains(q) by {
                let w = choose|k: int|
                    0 <= k < i + 1 && (#[trigger] files@.subrange(0, i + 1)[k]).producer == q;
                if w < i {
                    assert((files@.subrange(0, i as int)[w]).producer == q);
                    assert(pre.contains(q));
                    let u = choose|k: int| 0 <= k < pre.len() && pre[k] == q;
                    assert(ids@[u] == q);
                } else {
                    assert(q == id);
                    if pre.contains(id) {
                        let u = choose|k: int| 0 <= k < pre.len() && pre[k] == id;
                        assert(ids@[u] == id);
                    } else {
                        assert(ids@[ids@.len() - 1] == id);
                    }
                }
            }
        }
        i = i + 1;
    }
    assert(files@.subrange(0, n as int) =~= files@);
    ids
}

/// All files with producer `id`, in input order.
fn filter_producer(files: &Vec<CaptureFile>, id: u64) -> (r: Vec<CaptureFile>)
    ensures
        r@ == files_of(files@, id),
{
    let n = files.len();
    let mut out: Vec<CaptureFile> = Vec::new();
    let mut i: usize = 0;
    while i < n
        invariant
            i <= n,
            n == files@.len(),
            out@ == files_of(files@.subrange(0, i as int), id),
        decreases n - i,
    {
        assert(files@.subrange(0, i + 1).drop_last() =~= files@.subrange(0, i as int));
        assert(files@.subrange(0, i + 1).last() == files@[i as int]);
        if files[i].producer == id {
            let f = files[i].duplicate();
            out.push(f);
        }
        i = i + 1;
    }
    assert(files@.subrange(0, n as int) =~= files@);
    out
}

/// Each group's files ascend by timestamp.
pub open spec fn sorted_by_ts(s: Seq<CaptureFile>) -> bool {
    forall|i: int, j: int| 0 <= i < j < s.len() ==> (#[trigger] s[i]).timestamp <= (#[trigger] s[j]).timestamp
}

/// Timestamps strictly ascend.
pub open spec fn strictly_sorted_by_ts(s: Seq<CaptureFile>) -> bool {
    forall|i: int, j: int| 0 <= i < j < s.len() ==> (#[trigger] s[i]).timestamp < (#[trigger] s[j]).timestamp
}

fn insert_pos(files: &Vec<CaptureFile>, k: usize, ts: u64) -> (j: usize)
    requires
        k <= files@.len(),
    ensures
        j <= k,
        forall|t: int| j <= t < k ==> (#[trigger] files@[t]).timestamp > ts,
        j > 0 ==> files@[j - 1].timestamp <= ts,
{
    let mut j = k;
    while j > 0
        invariant
            j <= k <= files@.len(),
            forall|t: int| j <= t < k ==> (#[trigger] files@[t]).timestamp > ts,
        decreases j,
    {
        if files[j - 1].timestamp <= ts {
            return j;
        }
        j = j - 1;
    }
    0
}

/// Sorts a group ascending by timestamp; the result is a permutation of the
/// input.
#[verifier::rlimit(50)]
pub fn sort_files_by_timestamp(files: &mut Vec<CaptureFile>)
    ensures
        sorted_by_ts(final(files)@),
        final(files)@.to_multiset() == old(files)@.to_multiset(),
{
    broadcast use vstd::multiset::group_multiset_axioms;

    let n = files.len();
    if n == 0 {
        return;
    }
    let mut k: usize = 1;
    while k < n
        invariant
            1 <= k <= n,
            n == files@.len(),
            sorted_by_ts(files@.subrange(0, k as int)),
            files@.to_multiset() == old(files)@.to_multiset(),
        decreases n - k,
    {
        let ghost before = files@;
        let x = files.remove(k);
        let ghost removed = files@;
        let j = insert_pos(files, k, x.timestamp);
        files.insert(j, x);
        proof {
            broadcast use vstd::multiset::group_multiset_axioms;

            before.to_multiset_ensures();
            assert(removed.to_multiset() == before.to_multiset().remove(x));
            vstd::seq_lib::to_multiset_insert(removed, j as int, x);
            assert(before.to_multiset().contains(x)) by {
                assert(before[k as int] == x);
                assert(before.contains(x));
            }
            assert(files@.to_multiset() =~= before.to_multiset());
            assert(sorted_by_ts(files@.subrange(0, k + 1))) by {
                assert(forall|t: int|
                    0 <= t < k ==> #[trigger] removed[t] == before.subrange(0, k as int)[t]);
                removed.insert_ensures(j as int, x);
                assert forall|a: int, b: int| 0 <= a < b < k + 1 implies (#[trigger] files@
                    .subrange(0, k + 1)[a]).timestamp <= (#[trigger] files@.subrange(
                    0, k + 1)[b]).timestamp by {
                    let sa = files@[a];
                    let sb = files@[b];
                    if b < j {
                        assert(sa == removed[a] && sb == removed[b]);
                    } else if b == j {
                        assert(sa == removed[a]);
                    } else if a < j {
                        assert(sa == removed[a] && sb == removed[b - 1]);
                    } else if a == j {
                        assert(sb == removed[b - 1]);
                    } else {
                        assert(sa == removed[a - 1] && sb == removed[b - 1]);
                    }
                }
            }
        }
        k = k + 1;
    }
    assert(files@.subrange(0, n as int) =~= files@);
}

/// A file stays when its own timestamp does not exceed the window end and,
/// unless it is the last of its group, the next file does not start before
/// the window.
pub open spec fn keep_at(s: Seq<CaptureFile>, i: int, start: u64, end: u64) -> bool {
    s[i].timestamp <= end && (i == s.len() - 1 || s[i + 1].timestamp >= start)
}

/// The retained subsequence of a sorted group for the window `[start, end]`.
pub open spec fn prune_from(s: Seq<CaptureFile>, i: int, start: u64, end: u64) -> Seq<CaptureFile>
    decreases s.len() - i,
{
    if i < 0 || i >= s.len() {
        Seq::empty()
    } else if keep_at(s, i, start, end) {
        seq![s[i]] + prune_from(s, i + 1, start, end)
    } else {
        prune_from(s, i + 1, start, end)
    }
}

/// Drops the files of a sorted group whose validity interval lies outside
/// the window `[start, end]`.
pub fn prune_group(files: &Vec<CaptureFile>, start: u64, end: u64) -> (r: Vec<CaptureFile>)
    ensures
        r@ == prune_from(files@, 0, start, end),
{
    let n = files.len();
    let mut out: Vec<CaptureFile> = Vec::new();
    let mut i: usize = 0;
    while i < n
        invariant
            i <= n,
            n == files@.len(),
            prune_from(files@, 0, start, end) == out@ + prune_from(files@, i as int, start, end),
        decreases n - i,
    {
        let ghost pre = out@;
        let keep = if files[i].timestamp > end {
            false
        } else if i + 1 < n {
            files[i + 1].timestamp >= start
        } else {
            true
        };
        assert(keep == keep_at(files@, i as int, start, end));
        if keep {
            let f = files[i].duplicate();
            out.push(f);
            assert(out@ =~= pre + seq![files@[i as int]]);
            assert(pre + (seq![files@[i as int]] + prune_from(files@, i + 1, start, end)) =~= out@
                + prune_from(files@, i + 1, start, end));
        }
        i = i + 1;
    }
    assert(out@ + prune_from(files@, n as int, start, end) =~= out@);
    out
}

/// The interval `[t_i, t_(i+1))` of file `i` (the last file's interval is
/// unbounded above) has a point in common with the window `[start, end]`.
pub open spec fn interval_meets_window(s: Seq<CaptureFile>, i: int, start: u64, end: u64) -> bool {
    exists|t: int|
        #![trigger (t + 0)]
        s[i].timestamp <= t && (i < s.len() - 1 ==> t < s[i + 1].timestamp) && start <= t <= end
}

/// Window-selection law: in a strictly time-ordered group, pruning keeps a
/// file exactly when its validity interval meets the window, and always
/// keeps the last file when its timestamp does not exceed the window end.
/// The one boundary this does not cover is a successor that starts exactly
/// at the window start: such a file is kept although its interval ends just
/// before the window.
pub proof fn lemma_window_retention(s: Seq<CaptureFile>, start: u64, end: u64, i: int)
    requires
        strictly_sorted_by_ts(s),
        start <= end,
        0 <= i < s.len(),
        i < s.len() - 1 ==> s[i + 1].timestamp != start,
    ensures
        keep_at(s, i, start, end) <==> interval_meets_window(s, i, start, end),
        i == s.len() - 1 && s[i].timestamp <= end ==> keep_at(s, i, start, end),
{
    if keep_at(s, i, start, end) {
        let ti = s[i].timestamp as int;
        let w: int = if ti >= start { ti } else { start as int };
        assert(s[i].timestamp <= w && (i < s.len() - 1 ==> w < s[i + 1].timestamp) && start <= w
            <= end) by {
            if i < s.len() - 1 {
                assert(s[i].timestamp < s[i + 1].timestamp);
                assert(s[i + 1].timestamp >= start);
                assert(s[i + 1].timestamp != start);
            }
        }
        assert(interval_meets_window(s, i, start, end)) by {
            assert(s[i].timestamp <= (w + 0) && (i < s.len() - 1 ==> (w + 0) < s[i
                + 1].timestamp) && start <= (w + 0) <= end);
        }
    }
    if interval_meets_window(s, i, start, end) {
        let t = choose|t: int|
            #![trigger (t + 0)]
            s[i].timestamp <= t && (i < s.len() - 1 ==> t < s[i + 1].timestamp) && start <= t
                <= end;
        assert(s[i].timestamp <= end);
        if i < s.len() - 1 {
            assert(s[i + 1].timestamp > t >= start);
        }
    }
}


/// The window start in whole seconds: the given start time, defaulting to 0.
pub open spec fn spec_window_start(start_time: Option<i64>) -> int {
    match start_time {
        Option::Some(st) => st as int,
        Option::None => 0,
    }
}

/// The window end: start plus the given duration, unbounded by default.
pub open spec fn spec_window_end(start_time: Option<i64>, duration: Option<i64>) -> int {
    spec_window_start(start_time) + match duration {
        Option::Some(d) => d as int,
        Option::None => i64::MAX as int,
    }
}

/// `g` holds exactly the window-pruned, time-ordered files of its producer,
/// drawn from `files`.
pub open spec fn group_selected(files: Seq<CaptureFile>, g: SpoolGroup, start: u64, end: u64) -> bool {
    exists|sorted: Seq<CaptureFile>|
        #![trigger sorted_by_ts(sorted)]
        sorted_by_ts(sorted) && sorted.to_multiset() == files_of(files, g.producer).to_multiset()
            && g.files@ == prune_from(sorted, 0, start, end)
}

/// The result of a file selection: one group per producer present, each
/// group holding exactly its producer's files in time order, pruned to the
/// window.
pub open spec fn selection_ok(
    files: Seq<CaptureFile>,
    groups: Seq<SpoolGroup>,
    start: u64,
    end: u64,
) -> bool {
    &&& forall|g: int, h: int|
        0 <= g < h < groups.len() ==> (#[trigger] groups[g]).producer != (#[trigger] groups[
            h]).producer
    &&& forall|id: u64|
        #[trigger] has_producer(files, id) ==> exists|g: int|
            0 <= g < groups.len() && (#[trigger] groups[g]).producer == id
    &&& forall|g: int|
        0 <= g < groups.len() ==> has_producer(files, (#[trigger] groups[g]).producer)
    &&& forall|g: int|
        0 <= g < groups.len() ==> group_selected(files, #[trigger] groups[g], start, end)
}

/// Builds the time-ordered, window-pruned spool groups from a directory
/// listing: entries are prefix-filtered and parsed (any unparsable name
/// fails the whole selection), grouped by producer id, sorted ascending by
/// timestamp, and pruned to the window.
pub fn select_files(
    entries: &Vec<DirEntry>,
    prefix: Option<&String>,
    start_time: Option<i64>,
    duration: Option<i64>,
) -> (r: Option<Vec<SpoolGroup>>)
    requires
        start_time matches Some(st) ==> st >= 0,
        duration matches Some(d) ==> d >= 0,
    ensures
        r is None <==> spec_scan(entries@, spec_prefix_of(prefix)) is None,
        r matches Some(groups) ==> selection_ok(
            spec_scan(entries@, spec_prefix_of(prefix)).unwrap(),
            groups@,
            spec_window_start(start_time) as u64,
            spec_window_end(start_time, duration) as u64,
        ),
{
    let files = match scan_entries(entries, prefix) {
        Some(f) => f,
        None => {
            return None;
        },
    };
    let start_u: u64 = match start_time {
        Some(st) => st as u64,
        None => 0,
    };
    let dur_u: u64 = match duration {
        Some(d) => d as u64,
        None => i64::MAX as u64,
    };
    let end_u: u64 = start_u + dur_u;
    let ids = producer_ids(&files);
    let m = ids.len();
    let mut groups: Vec<SpoolGroup> = Vec::new();
    let mut g: usize = 0;
    while g < m
        invariant
            g <= m,
            m == ids@.len(),
            groups@.len() == g,
            forall|a: int, b: int| 0 <= a < b < ids@.len() ==> ids@[a] != ids@[b],
            forall|id: u64| #[trigger] ids@.contains(id) <==> has_producer(files@, id),
            forall|a: int| 0 <= a < g ==> (#[trigger] groups@[a]).producer == ids@[a],
            forall|a: int|
                0 <= a < g ==> group_selected(files@, #[trigger] groups@[a], start_u, end_u),
        decreases m - g,
    {
        let id = ids[g];
        let mut fs = filter_producer(&files, id);
        sort_files_by_timestamp(&mut fs);
        let ghost sorted_view = fs@;
        let pruned = prune_group(&fs, start_u, end_u);
        groups.push(SpoolGroup { producer: id, files: pruned });
        assert(group_selected(files@, groups@[g as int], start_u, end_u)) by {
            assert(sorted_by_ts(sorted_view) && sorted_view.to_multiset() == files_of(
                files@, id).to_multiset() && groups@[g as int].files@ == prune_from(
                sorted_view, 0, start_u, end_u));
        }
        g = g + 1;
    }
    proof {
        assert(spec_scan(entries@, spec_prefix_of(prefix)).unwrap() == files@);
        assert(start_u == spec_window_start(start_time) as u64);
        assert(end_u == spec_window_end(start_time, duration) as u64);
        assert forall|id: u64| #[trigger] has_producer(
            spec_scan(entries@, spec_prefix_of(prefix)).unwrap(),
            id,
        ) implies exists|a: int|
            0 <= a < groups@.len() && (#[trigger] groups@[a]).producer == id by {
            assert(has_producer(files@, id));
            assert(ids@.contains(id));
            let w = choose|k: int| 0 <= k < ids@.len() && ids@[k] == id;
            assert(groups@[w].producer == id);
        }
        assert forall|a: int| 0 <= a < groups@.len() implies has_producer(
            spec_scan(entries@, spec_prefix_of(prefix)).unwrap(),
            (#[trigger] groups@[a]).producer,
        ) by {
            assert(ids@.contains(ids@[a]));
            assert(has_producer(files@, groups@[a].producer));
        }
        assert forall|a: int| 0 <= a < groups@.len() implies group_selected(
            spec_scan(entries@, spec_prefix_of(prefix)).unwrap(),
            #[trigger] groups@[a],
            spec_window_start(start_time) as u64,
            spec_window_end(start_time, duration) as u64,
        ) by {
            assert(group_selected(files@, groups@[a], start_u, end_u));
            let w = choose|sorted: Seq<CaptureFile>|
                #![trigger sorted_by_ts(sorted)]
                sorted_by_ts(sorted) && sorted.to_multiset() == files_of(
                    files@,
                    groups@[a].producer,
                ).to_multiset() && groups@[a].files@ == prune_from(sorted, 0, start_u, end_u);
            assert(sorted_by_ts(w) && w.to_multiset() == files_of(
                spec_scan(entries@, spec_prefix_of(prefix)).unwrap(),
                groups@[a].producer,
            ).to_multiset() && groups@[a].files@ == prune_from(
                w,
                0,
                spec_window_start(start_time) as u64,
                spec_window_end(start_time, duration) as u64,
            ));
        }
        assert(selection_ok(
            spec_scan(entries@, spec_prefix_of(prefix)).unwrap(),
            groups@,
            spec_window_start(start_time) as u64,
            spec_window_end(start_time, duration) as u64,
        ));
    }
    Some(groups)
}

} // verus!
