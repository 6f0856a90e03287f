//! The reporter's read side: a frozen snapshot of the aggregate, with the
//! top error messages by count and by trend picked out.

use vstd::prelude::*;
use crate::hist::keys_distinct;
use crate::stats::{core_inv, Stats};

verus! {

/// Strict ranking of histogram entries: more occurrences first, ties to the
/// lower (older) message id. On entries with distinct keys it is total.
pub open spec fn beats(a: (u64, u64), b: (u64, u64)) -> bool {
    a.1 > b.1 || (a.1 == b.1 && a.0 < b.0)
}

/// `out` is the top of `src` under [`beats`]: as many entries as there are,
/// at most three, each from `src`, in strictly falling rank, and each
/// ranking above everything left out.
pub open spec fn is_top3(src: Seq<(u64, u64)>, out: Seq<(u64, u64)>) -> bool {
    &&& out.len() == (if src.len() < 3 {
        src.len()
    } else {
        3
    })
    &&& forall|i: int| #![trigger out[i]]
        0 <= i < out.len() ==> exists|k: int| 0 <= k < src.len() && src[k] == out[i]
    &&& forall|i: int, j: int| #![trigger out[i], out[j]] 0 <= i < j < out.len() ==> beats(
        out[i],
        out[j],
    )
    &&& forall|k: int, i: int| #![trigger beats(out[i], src[k])]
        0 <= k < src.len() && 0 <= i < out.len() && !(exists|j: int|
            0 <= j < out.len() && out[j].0 == src[k].0) ==> beats(out[i], src[k])
}

/// Number of distinct seconds in the per-second table, counting each second
/// at its last occurrence.
pub open spec fn count_distinct_secs(s: Seq<(i64, u64, u64)>) -> int
    decreases s.len(),
{
    if s.len() == 0 {
        0
    } else {
        count_distinct_secs(s.drop_last()) + (if has_sec(s.drop_last(), s.last().0) {
            0int
        } else {
            1int
        })
    }
}

/// Whether some entry is bucketed at the given second.
pub open spec fn has_sec(s: Seq<(i64, u64, u64)>, sec: i64) -> bool {
    exists|i: int| 0 <= i < s.len() && s[i].0 == sec
}

/// The immutable view the reporter renders once a second. Rates are integer
/// fixed point, as in [`crate::window::WindowState`].
pub struct Snapshot {
    /// When the snapshot was taken, in epoch milliseconds.
    pub at_ms: i64,
    pub entries: u64,
    pub window_ms: u64,
    pub collected_interval_ms: i64,
    /// Records received in the trailing second.
    pub current_per_second_rate: u64,
    pub rate: u64,
    pub peak_rate: u64,
    pub errors: u64,
    pub infos: u64,
    pub debugs: u64,
    pub malformed: u64,
    pub error_rate_permille: u64,
    /// Up to three `(msg_id, count)` pairs, best first.
    pub top_counts: Vec<(u64, u64)>,
    /// Up to three `(msg_id, trend score)` pairs, best first.
    pub top_trends: Vec<(u64, u64)>,
    /// Distinct seconds in the per-second table, a diagnostic.
    pub per_sec_table_size: usize,
}

/// Index of the best entry under [`beats`], skipping up to two indices.
/// The skip arguments use the length as "skip nothing".
fn best_except(v: &Vec<(u64, u64)>, s1: usize, s2: usize, Ghost(w): Ghost<int>) -> (b: usize)
    requires
        keys_distinct(v@),
        0 <= w < v@.len(),
        w != s1,
        w != s2,
    ensures
        b < v@.len(),
        b != s1,
        b != s2,
        forall|m: int| #![trigger v@[m]]
            0 <= m < v@.len() && m != s1 && m != s2 && m != b ==> beats(v@[b as int], v@[m]),
{
    let n = v.len();
    let mut b: usize = 0;
    while b == s1 || b == s2
        invariant
            0 <= w < v@.len(),
            v@.len() == n,
            w != s1,
            w != s2,
            b <= w,
            b <= 2,
            b >= 1 ==> 0 == s1 || 0 == s2,
            b >= 2 ==> 1 == s1 || 1 == s2,
        decreases w - b,
    {
        b = b + 1;
    }
    let mut k: usize = b + 1;
    while k < v.len()
        invariant
            keys_distinct(v@),
            k <= v@.len(),
            b < k,
            b < v@.len(),
            b != s1,
            b != s2,
            forall|m: int| #![trigger v@[m]]
                0 <= m < k && m != s1 && m != s2 && m != b ==> beats(v@[b as int], v@[m]),
        decreases v@.len() - k,
    {
        if k != s1 && k != s2 {
            let cand = v[k];
            let cur = v[b];
            if cand.1 > cur.1 || (cand.1 == cur.1 && cand.0 < cur.0) {
                b = k;
            }
        }
        k = k + 1;
    }
    b
}

/// The top three entries of a histogram under [`beats`]: by falling count,
/// ties to the lower message id.
pub fn top3(v: &Vec<(u64, u64)>) -> (r: Vec<(u64, u64)>)
    requires
        keys_distinct(v@),
    ensures
        is_top3(v@, r@),
{
    let mut r: Vec<(u64, u64)> = Vec::new();
    let n = v.len();
    if n == 0 {
        return r;
    }
    let b1 = best_except(v, n, n, Ghost(0int));
    r.push(v[b1]);
    if n == 1 {
        proof {
            lemma_top_keys(v@, r@, b1 as int, n as int, n as int);
        }
        return r;
    }
    let ghost w2: int = if b1 == 0 {
        1int
    } else {
        0int
    };
    let b2 = best_except(v, b1, n, Ghost(w2));
    r.push(v[b2]);
    if n == 2 {
        proof {
            lemma_top_keys(v@, r@, b1 as int, b2 as int, n as int);
        }
        return r;
    }
    let ghost w3: int = if b1 != 0 && b2 != 0 {
        0int
    } else if b1 != 1 && b2 != 1 {
        1int
    } else {
        2int
    };
    let b3 = best_except(v, b1, b2, Ghost(w3));
    r.push(v[b3]);
    proof {
        lemma_top_keys(v@, r@, b1 as int, b2 as int, b3 as int);
    }
    r
}

/// With distinct keys, an entry whose key appears nowhere in the picked
/// list is none of the picked indices, so the dominance facts carry over
/// from indices to keys.
proof fn lemma_top_keys(src: Seq<(u64, u64)>, out: Seq<(u64, u64)>, b1: int, b2: int, b3: int)
    requires
        keys_distinct(src),
        out.len() >= 1 ==> 0 <= b1 < src.len() && out[0] == src[b1],
        out.len() >= 2 ==> 0 <= b2 < src.len() && out[1] == src[b2],
        out.len() >= 3 ==> 0 <= b3 < src.len() && out[2] == src[b3],
        out.len() <= 3,
        forall|m: int| #![trigger src[m]]
            out.len() >= 1 && 0 <= m < src.len() && m != b1 ==> beats(src[b1], src[m]),
        forall|m: int| #![trigger src[m]]
            out.len() >= 2 && 0 <= m < src.len() && m != b1 && m != b2 ==> beats(src[b2], src[m]),
        forall|m: int| #![trigger src[m]]
            out.len() >= 3 && 0 <= m < src.len() && m != b1 && m != b2 && m != b3 ==> beats(
                src[b3],
                src[m],
            ),
    ensures
        forall|k: int, i: int| #![trigger beats(out[i], src[k])]
            0 <= k < src.len() && 0 <= i < out.len() && !(exists|j: int|
                0 <= j < out.len() && out[j].0 == src[k].0) ==> beats(out[i], src[k]),
{
    assert forall|k: int, i: int| #![trigger beats(out[i], src[k])]
        0 <= k < src.len() && 0 <= i < out.len() && !(exists|j: int|
            0 <= j < out.len() && out[j].0 == src[k].0) implies beats(out[i], src[k]) by {
        assert(out[0].0 != src[k].0);
        assert(k != b1);
        if out.len() >= 2 {
            assert(out[1].0 != src[k].0);
            assert(k != b2);
        }
        if out.len() >= 3 {
            assert(out[2].0 != src[k].0);
            assert(k != b3);
        }
    }
}

/// Distinct seconds in the per-second table.
fn distinct_secs(v: &Vec<(i64, u64, u64)>) -> (n: usize)
    ensures
        n as int == count_distinct_secs(v@),
{
    let mut n: usize = 0;
    let mut k: usize = 0;
    while k < v.len()
        invariant
            k <= v@.len(),
            n <= k,
            n as int == count_distinct_secs(v@.take(k as int)),
        decreases v@.len() - k,
    {
        let sec = v[k].0;
        let mut seen = false;
        let mut m: usize = 0;
        while m < k
            invariant
                m <= k,
                k < v@.len(),
                sec == v@[k as int].0,
                seen == exists|i: int| 0 <= i < m && v@[i].0 == sec,
            decreases k - m,
        {
            if v[m].0 == sec {
                seen = true;
                proof {
                    assert(v@[m as int].0 == sec);
                }
            }
            m = m + 1;
        }
        proof {
            assert(v@.take(k as int + 1).drop_last() =~= v@.take(k as int));
            assert(v@.take(k as int + 1).last() == v@[k as int]);
            assert forall|i: int| 0 <= i < k implies v@.take(k as int)[i] == v@[i] by {}
            assert(seen == has_sec(v@.take(k as int), sec));
        }
        if !seen {
            n = n + 1;
        }
        k = k + 1;
    }
    proof {
        assert(v@.take(v@.len() as int) =~= v@);
    }
    n
}

impl Stats {
    /// Freeze the aggregate for the reporter: every counter and metric as
    /// it stands, with the top error messages by count and by trend.
    pub fn snapshot(&self, at_ms: i64) -> (s: Snapshot)
        requires
            core_inv(self),
        ensures
            s.at_ms == at_ms,
            s.entries == self.stat.entries,
            s.window_ms == self.stat.window_ms,
            s.collected_interval_ms == self.stat.collected_interval_ms,
            s.current_per_second_rate == self.stat.last_second_received@.len(),
            s.rate == self.stat.rate,
            s.peak_rate == self.stat.peak_rate,
            s.errors == self.stat.errors,
            s.infos == self.stat.infos,
            s.debugs == self.stat.debugs,
            s.malformed == self.stat.malformed,
            s.error_rate_permille == self.stat.error_rate_permille,
            is_top3(self.stat.error_msg_counts@, s.top_counts@),
            is_top3(self.stat.error_msg_rates@, s.top_trends@),
            s.per_sec_table_size as int == count_distinct_secs(self.stat.error_msg_per_sec@),
    {
        let lsr = self.stat.last_second_received.len();
        Snapshot {
            at_ms,
            entries: self.stat.entries,
            window_ms: self.stat.window_ms,
            collected_interval_ms: self.stat.collected_interval_ms,
            current_per_second_rate: lsr as u64,
            rate: self.stat.rate,
            peak_rate: self.stat.peak_rate,
            errors: self.stat.errors,
            infos: self.stat.infos,
            debugs: self.stat.debugs,
            malformed: self.stat.malformed,
            error_rate_permille: self.stat.error_rate_permille,
            top_counts: top3(&self.stat.error_msg_counts),
            top_trends: top3(&self.stat.error_msg_rates),
            per_sec_table_size: distinct_secs(&self.stat.error_msg_per_sec),
        }
    }
}

} // verus!
