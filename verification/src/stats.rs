//! The statistics core: the record deque, the interner and the window
//! aggregate, with the coupling invariant that ties every counter and
//! histogram to the records actually inside the window.

use vstd::prelude::*;
use std::collections::VecDeque;
use crate::counts::{
    count_level, count_malformed, count_msg, count_sec_msg, is_malformed, is_msg,
    is_sec_msg, lemma_counts_nonneg, lemma_drop_last, lemma_partition, lemma_prepend,
};
use crate::hist::{idx_of, k_get, k_val, ps_get, ps_val};
use crate::interner::{has_text, id_of, texts, texts_distinct, MessageInterner};
use crate::trend::{spec_trend, MSG_ERROR_WINDOW_MS};
use crate::types::{InnerOKRecord, InnerRecord, Level, StatErrRecord, StatOKRecord, StatRecord};
use crate::window::{
    applied, dec_ok, same_derived, trim_back, well_formed, Act, WindowState, MIN_WINDOW_MS,
};

verus! {

/// The statistics core. All mutation is funneled through the methods below;
/// the reporter reads a [`crate::report::Snapshot`].
pub struct Stats {
    /// Records inside the window, front (index zero) newest.
    pub records: VecDeque<InnerRecord>,
    pub interner: MessageInterner,
    pub stat: WindowState,
}

/// Counters and histograms agree with the records in the window: each
/// counter counts its kind, the per-message histogram counts error records
/// per id, the per-second histogram counts them per `(second, id)`.
pub open spec fn couplings(ws: &WindowState, recs: Seq<InnerRecord>) -> bool {
    &&& ws.errors == count_level(recs, Level::ERROR)
    &&& ws.infos == count_level(recs, Level::INFO)
    &&& ws.debugs == count_level(recs, Level::DEBUG)
    &&& ws.malformed == count_malformed(recs)
    &&& forall|id: u64| k_val(ws.error_msg_counts@, id) == count_msg(recs, id)
    &&& forall|sec: i64, id: u64|
        ps_val(ws.error_msg_per_sec@, sec, id) == count_sec_msg(recs, sec, id)
}

/// Records are ordered newest to oldest by receive time.
pub open spec fn sorted_desc(recs: Seq<InnerRecord>) -> bool {
    forall|i: int, j: int| #![trigger recs[i], recs[j]]
        0 <= i <= j < recs.len() ==> recs[i].spec_recv_millis() >= recs[j].spec_recv_millis()
}

/// The core's invariant: a well-formed aggregate coupled to the window
/// records, a duplicate-free interner, and the deque sorted by receive
/// time.
pub open spec fn core_inv(st: &Stats) -> bool {
    &&& well_formed(&st.stat)
    &&& couplings(&st.stat, st.records@)
    &&& texts_distinct(texts(&st.interner))
    &&& sorted_desc(st.records@)
}

/// Receive-time span of the records, saturated to `i64`.
pub open spec fn interval_of(recs: Seq<InnerRecord>) -> int {
    if recs.len() == 0 {
        0
    } else {
        let d = recs[0].spec_recv_millis() - recs.last().spec_recv_millis();
        if d > i64::MAX {
            i64::MAX as int
        } else {
            d
        }
    }
}

/// Records per second over the measured span, saturated to `u64`.
pub open spec fn rate_of(entries: int, interval: int) -> int {
    let r = entries * 1000 / interval;
    if r > u64::MAX {
        u64::MAX as int
    } else {
        r
    }
}

/// Errors per thousand entries.
pub open spec fn permille_of(errors: int, entries: int) -> int {
    if entries > 0 {
        errors * 1000 / entries
    } else {
        0
    }
}

/// Logged-time span the trend engine observes: at least
/// [`MSG_ERROR_WINDOW_MS`], saturated to `i64`.
pub open spec fn span_of(recs: Seq<InnerRecord>) -> int {
    let d = recs[0].spec_log_millis() - recs.last().spec_log_millis();
    let m = if d < MSG_ERROR_WINDOW_MS {
        MSG_ERROR_WINDOW_MS as int
    } else {
        d
    };
    if m > i64::MAX {
        i64::MAX as int
    } else {
        m
    }
}

/// The derived metrics agree with the records now in the window: the
/// entry count is the deque length, the interval is the receive-time span,
/// the rate and error rate follow their formulas, the trend table is the
/// one computed from the current histograms, and every record is inside
/// the window (eviction is complete).
pub open spec fn measured(st: &Stats, now: int) -> bool {
    &&& st.stat.entries == st.records@.len()
    &&& st.stat.collected_interval_ms == interval_of(st.records@)
    &&& st.stat.collected_interval_ms > 100 ==> st.stat.rate == rate_of(
        st.records@.len() as int,
        st.stat.collected_interval_ms as int,
    )
    &&& st.stat.collected_interval_ms >= 1000 ==> st.stat.peak_rate >= st.stat.rate
    &&& st.stat.error_rate_permille == permille_of(
        st.stat.errors as int,
        st.records@.len() as int,
    )
    &&& st.records@.len() > 0 ==> st.stat.error_msg_rates@ == spec_trend(
        st.stat.error_msg_per_sec@,
        st.stat.error_msg_counts@,
        now,
        span_of(st.records@),
    )
    &&& forall|i: int| #![trigger st.records@[i]]
        0 <= i < st.records@.len() ==> st.records@[i].spec_recv_millis() >= now
            - st.stat.window_ms
}

/// The window length the controller aims at for a given positive rate:
/// enough seconds to hold about one hundred thousand records, clamped.
/// Mind the order of the two comparisons: the candidate is first raised to
/// the thirty-second floor, then lowered to the two-minute cap; with the
/// bounds swapped this would collapse to a constant cap.
pub open spec fn desired_window_ms(rate: int) -> int {
    let secs = 100_000int / rate;
    (if secs < 30 {
        30
    } else if secs > 120 {
        120
    } else {
        secs
    }) * 1000
}

/// No adjustment is pending: the rate is zero, or the expected buffer size
/// sits inside the target band, or the window already is the desired one.
pub open spec fn window_stable(ws: &WindowState) -> bool {
    ||| ws.rate == 0
    ||| {
        let expected = ws.rate * ws.window_ms / 1000;
        75_000 <= expected <= 100_000
    }
    ||| desired_window_ms(ws.rate as int) == ws.window_ms
}

/// The record a parsed line becomes once its message is interned against
/// the given text store.
pub open spec fn interned_of(texts0: Seq<Seq<char>>, rec: StatOKRecord) -> InnerRecord {
    InnerRecord::OK(
        InnerOKRecord {
            received_millis: rec.received_millis,
            logged_millis: rec.logged_millis,
            level: rec.level,
            msg_id: id_of(texts0, rec.message@) as u64,
        },
    )
}

/// The record a malformed marker becomes inside the window.
pub open spec fn marker_of(rec: StatErrRecord) -> InnerRecord {
    InnerRecord::Malformed(
        crate::types::InnerErrRecord {
            received_millis: rec.received_millis,
            err_type: rec.error_type,
        },
    )
}

/// What ingesting a parsed record does: its receive time goes onto the
/// trailing-second tracker, its message is interned, the interned record
/// goes to the front of the window, and the window is brought up to date —
/// keeping everything except records stale beyond the window floor.
pub open spec fn ok_ingested(pre: &Stats, post: &Stats, rec: StatOKRecord, now: int) -> bool {
    let pushed = seq![interned_of(texts(&pre.interner), rec)] + pre.records@;
    &&& measured(post, now)
    &&& post.stat.last_second_received@ == trim_back(
        seq![rec.received_millis] + pre.stat.last_second_received@,
        now,
    )
    &&& (has_text(texts(&pre.interner), rec.message@) ==> texts(&post.interner) == texts(
        &pre.interner,
    ))
    &&& (!has_text(texts(&pre.interner), rec.message@) ==> texts(&post.interner) == texts(
        &pre.interner,
    ).push(rec.message@))
    &&& post.records@.len() <= pushed.len()
    &&& post.records@ == pushed.take(post.records@.len() as int)
    &&& forall|i: int| #![trigger pushed[i]]
        post.records@.len() <= i < pushed.len() ==> pushed[i].spec_recv_millis() < now
            - MIN_WINDOW_MS
}

/// What ingesting a malformed marker does: it is counted in and put at the
/// front of the window; eviction waits for the next parsed record or
/// reporting tick.
pub open spec fn err_ingested(pre: &Stats, post: &Stats, rec: StatErrRecord) -> bool {
    &&& post.records@ == seq![marker_of(rec)] + pre.records@
    &&& applied(&pre.stat, &post.stat, marker_of(rec), Act::Inc)
    &&& post.interner == pre.interner
}

/// Counting one prepended record in keeps the coupling.
proof fn lemma_inc_maintains(
    pre: &WindowState,
    post: &WindowState,
    recs: Seq<InnerRecord>,
    r: InnerRecord,
)
    requires
        well_formed(pre),
        pre.errors + pre.infos + pre.debugs + pre.malformed < u64::MAX,
        couplings(pre, recs),
        applied(pre, post, r, Act::Inc),
    ensures
        couplings(post, seq![r] + recs),
{
    lemma_prepend(recs, r);
    let t = seq![r] + recs;
    match r {
        InnerRecord::OK(ok) => {
            match ok.level {
                Level::ERROR => {
                    let sec = r.spec_log_sec() as i64;
                    let id = ok.msg_id;
                    let c0 = pre.error_msg_counts@;
                    if k_get(c0, id) is Some {
                        crate::hist::lemma_val_le_sum(c0, id);
                        assert(k_val(c0, id) < u64::MAX);
                        crate::hist::lemma_idx_of_some(c0, id);
                        crate::hist::lemma_update(
                            c0,
                            idx_of(c0, id),
                            id,
                            (k_val(c0, id) + 1) as u64,
                        );
                    } else {
                        crate::hist::lemma_push(c0, id, 1u64);
                    }
                    let p0 = pre.error_msg_per_sec@;
                    if ps_get(p0, sec, id) is Some {
                        crate::hist::lemma_ps_val_le_sum(p0, sec, id);
                        assert(ps_val(p0, sec, id) <= k_val(c0, id));
                        assert(ps_val(p0, sec, id) < u64::MAX);
                        crate::hist::lemma_ps_idx_of_some(p0, sec, id);
                        crate::hist::lemma_ps_update(
                            p0,
                            crate::hist::ps_idx(p0, sec, id),
                            sec,
                            id,
                            (ps_val(p0, sec, id) + 1) as u64,
                        );
                    } else {
                        crate::hist::lemma_ps_push(p0, sec, id, 1u64);
                    }
                    assert forall|id2: u64| k_val(post.error_msg_counts@, id2) == count_msg(
                        t,
                        id2,
                    ) by {
                        if id2 == id {
                            assert(count_msg(t, id2) == count_msg(recs, id2) + 1);
                        } else {
                            assert(count_msg(t, id2) == count_msg(recs, id2));
                        }
                    }
                    assert forall|s2: i64, id2: u64|
                        ps_val(post.error_msg_per_sec@, s2, id2) == count_sec_msg(t, s2, id2) by {
                        if s2 == sec && id2 == id {
                            assert(is_sec_msg(r, s2, id2) == 1);
                        } else {
                            assert(is_sec_msg(r, s2, id2) == 0);
                            assert(count_sec_msg(t, s2, id2) == count_sec_msg(recs, s2, id2));
                        }
                    }
                },
                Level::INFO => {
                    lemma_untouched_tables(pre, post, recs, t, r);
                },
                Level::DEBUG => {
                    lemma_untouched_tables(pre, post, recs, t, r);
                },
            }
        },
        InnerRecord::Malformed(_) => {
            lemma_untouched_tables(pre, post, recs, seq![r] + recs, r);
        },
    }
}

/// When a record carries no error message, the histogram tables stay as
/// they were and keep counting the records that do.
proof fn lemma_untouched_tables(
    pre: &WindowState,
    post: &WindowState,
    recs: Seq<InnerRecord>,
    t: Seq<InnerRecord>,
    r: InnerRecord,
)
    requires
        couplings(pre, recs),
        post.error_msg_counts@ == pre.error_msg_counts@,
        post.error_msg_per_sec@ == pre.error_msg_per_sec@,
        forall|id: u64| count_msg(t, id) == count_msg(recs, id) + is_msg(r, id),
        forall|sec: i64, id: u64|
            count_sec_msg(t, sec, id) == count_sec_msg(recs, sec, id) + is_sec_msg(r, sec, id),
        is_malformed(r) == 1 || (r is OK && !(r->OK_0.level is ERROR)),
    ensures
        forall|id: u64| k_val(post.error_msg_counts@, id) == count_msg(t, id),
        forall|sec: i64, id: u64|
            ps_val(post.error_msg_per_sec@, sec, id) == count_sec_msg(t, sec, id),
{
    assert forall|id: u64| k_val(post.error_msg_counts@, id) == count_msg(t, id) by {
        assert(k_val(pre.error_msg_counts@, id) == count_msg(recs, id));
        assert(is_msg(r, id) == 0);
    }
    assert forall|sec: i64, id: u64|
        ps_val(post.error_msg_per_sec@, sec, id) == count_sec_msg(t, sec, id) by {
        assert(ps_val(pre.error_msg_per_sec@, sec, id) == count_sec_msg(recs, sec, id));
        assert(is_sec_msg(r, sec, id) == 0);
    }
}

/// Counting the dropped oldest record out keeps the coupling.
proof fn lemma_dec_maintains(
    pre: &WindowState,
    post: &WindowState,
    recs: Seq<InnerRecord>,
    r: InnerRecord,
)
    requires
        well_formed(pre),
        recs.len() > 0,
        r == recs.last(),
        couplings(pre, recs),
        applied(pre, post, r, Act::Dec),
    ensures
        couplings(post, recs.drop_last()),
{
    lemma_drop_last(recs);
    lemma_counts_nonneg(recs.drop_last());
    let t = recs.drop_last();
    match r {
        InnerRecord::OK(ok) => {
            match ok.level {
                Level::ERROR => {
                    assert(count_level(t, Level::ERROR) == count_level(recs, Level::ERROR) - 1);
                    assert(count_level(t, Level::INFO) == count_level(recs, Level::INFO));
                    assert(count_level(t, Level::DEBUG) == count_level(recs, Level::DEBUG));
                    assert(count_malformed(t) == count_malformed(recs));
                    let sec = r.spec_log_sec() as i64;
                    let id = ok.msg_id;
                    let c0 = pre.error_msg_counts@;
                    assert(is_msg(r, id) == 1);
                    assert(count_msg(recs, id) >= 1);
                    assert(k_get(c0, id) is Some);
                    crate::hist::lemma_idx_of_some(c0, id);
                    if k_val(c0, id) > 1 {
                        crate::hist::lemma_update(
                            c0,
                            idx_of(c0, id),
                            id,
                            (k_val(c0, id) - 1) as u64,
                        );
                    } else {
                        crate::hist::lemma_remove(c0, idx_of(c0, id), id);
                    }
                    let p0 = pre.error_msg_per_sec@;
                    assert(is_sec_msg(r, sec, id) == 1);
                    assert(count_sec_msg(recs, sec, id) >= 1);
                    assert(ps_get(p0, sec, id) is Some);
                    crate::hist::lemma_ps_idx_of_some(p0, sec, id);
                    if ps_val(p0, sec, id) > 1 {
                        crate::hist::lemma_ps_update(
                            p0,
                            crate::hist::ps_idx(p0, sec, id),
                            sec,
                            id,
                            (ps_val(p0, sec, id) - 1) as u64,
                        );
                    } else {
                        crate::hist::lemma_ps_remove(p0, crate::hist::ps_idx(p0, sec, id), sec, id);
                    }
                    assert forall|id2: u64| k_val(post.error_msg_counts@, id2) == count_msg(
                        t,
                        id2,
                    ) by {
                        if id2 == id {
                            assert(count_msg(t, id2) == count_msg(recs, id2) - 1);
                        } else {
                            assert(count_msg(t, id2) == count_msg(recs, id2));
                        }
                    }
                    assert forall|s2: i64, id2: u64|
                        ps_val(post.error_msg_per_sec@, s2, id2) == count_sec_msg(t, s2, id2) by {
                        if s2 == sec && id2 == id {
                            assert(is_sec_msg(r, s2, id2) == 1);
                        } else {
                            assert(is_sec_msg(r, s2, id2) == 0);
                            assert(count_sec_msg(t, s2, id2) == count_sec_msg(recs, s2, id2));
                        }
                    }
                },
                Level::INFO => {
                    lemma_dec_untouched(pre, post, recs, r);
                },
                Level::DEBUG => {
                    lemma_dec_untouched(pre, post, recs, r);
                },
            }
        },
        InnerRecord::Malformed(_) => {
            lemma_dec_untouched(pre, post, recs, r);
        },
    }
}

/// The drop-last counterpart of [`lemma_untouched_tables`].
proof fn lemma_dec_untouched(
    pre: &WindowState,
    post: &WindowState,
    recs: Seq<InnerRecord>,
    r: InnerRecord,
)
    requires
        couplings(pre, recs),
        recs.len() > 0,
        r == recs.last(),
        post.error_msg_counts@ == pre.error_msg_counts@,
        post.error_msg_per_sec@ == pre.error_msg_per_sec@,
        is_malformed(r) == 1 || (r is OK && !(r->OK_0.level is ERROR)),
    ensures
        forall|id: u64| k_val(post.error_msg_counts@, id) == count_msg(recs.drop_last(), id),
        forall|sec: i64, id: u64|
            ps_val(post.error_msg_per_sec@, sec, id) == count_sec_msg(recs.drop_last(), sec, id),
{
    lemma_drop_last(recs);
    let t = recs.drop_last();
    assert forall|id: u64| k_val(post.error_msg_counts@, id) == count_msg(t, id) by {
        assert(k_val(pre.error_msg_counts@, id) == count_msg(recs, id));
        assert(count_msg(recs, id) == count_msg(t, id) + is_msg(r, id));
        assert(is_msg(r, id) == 0);
    }
    assert forall|sec: i64, id: u64|
        ps_val(post.error_msg_per_sec@, sec, id) == count_sec_msg(t, sec, id) by {
        assert(ps_val(pre.error_msg_per_sec@, sec, id) == count_sec_msg(recs, sec, id));
        assert(count_sec_msg(recs, sec, id) == count_sec_msg(t, sec, id) + is_sec_msg(
            r,
            sec,
            id,
        ));
        assert(is_sec_msg(r, sec, id) == 0);
    }
}

/// The back record's keys are still counted, so it can be counted out.
proof fn lemma_back_dec_ok(ws: &WindowState, recs: Seq<InnerRecord>)
    requires
        recs.len() > 0,
        couplings(ws, recs),
    ensures
        dec_ok(ws, recs.last()),
{
    lemma_drop_last(recs);
    lemma_counts_nonneg(recs.drop_last());
    let r = recs.last();
    match r {
        InnerRecord::OK(ok) => {
            match ok.level {
                Level::ERROR => {
                    let sec = r.spec_log_sec() as i64;
                    let id = ok.msg_id;
                    assert(is_sec_msg(r, sec, id) == 1);
                    assert(count_sec_msg(recs, sec, id) >= 1);
                    assert(ps_val(ws.error_msg_per_sec@, sec, id) >= 1);
                },
                Level::INFO => {
                    assert(count_level(recs, Level::INFO) >= 1);
                },
                Level::DEBUG => {
                    assert(count_level(recs, Level::DEBUG) >= 1);
                },
            }
        },
        InnerRecord::Malformed(_) => {
            assert(count_malformed(recs) >= 1);
        },
    }
}

impl Stats {
    /// A fresh, empty core.
    pub fn new() -> (st: Stats)
        ensures
            core_inv(&st),
            st.records@.len() == 0,
            st.stat.entries == 0,
            st.stat.collected_interval_ms == 0,
            st.stat.rate == 0,
            st.stat.peak_rate == 0,
            st.stat.error_rate_permille == 0,
            st.stat.errors == 0,
            st.stat.infos == 0,
            st.stat.debugs == 0,
            st.stat.malformed == 0,
            st.stat.error_msg_counts@.len() == 0,
            st.stat.error_msg_per_sec@.len() == 0,
            st.stat.error_msg_rates@.len() == 0,
            st.stat.window_ms == crate::window::DEFAULT_WINDOW_MS,
            st.stat.previous_window_ms == crate::window::DEFAULT_WINDOW_MS,
            st.stat.last_second_received@.len() == 0,
            texts(&st.interner).len() == 0,
    {
        let st = Stats {
            records: VecDeque::new(),
            interner: MessageInterner::new(),
            stat: WindowState::new(),
        };
        st
    }

    /// The stable id for a message text, interning it if new.
    pub fn msg_id(&mut self, msg: &str) -> (id: u64)
        requires
            core_inv(old(self)),
        ensures
            core_inv(final(self)),
            final(self).records@ == old(self).records@,
            final(self).stat == old(self).stat,
            id as int == id_of(texts(&old(self).interner), msg@),
            id < texts(&final(self).interner).len(),
            texts(&final(self).interner)[id as int] == msg@,
            has_text(texts(&old(self).interner), msg@) ==> texts(&final(self).interner) == texts(
                &old(self).interner,
            ),
            !has_text(texts(&old(self).interner), msg@) ==> texts(&final(self).interner) == texts(
                &old(self).interner,
            ).push(msg@),
    {
        self.interner.intern(msg.to_owned())
    }

    /// The text behind an id, or the fallback text for an unknown id.
    pub fn msg_by_id(&self, id: u64) -> (r: String)
        ensures
            id < texts(&self.interner).len() ==> r@ == texts(&self.interner)[id as int],
            id >= texts(&self.interner).len() ==> r@ == "N/A"@,
    {
        self.interner.lookup(id)
    }

    /// One eviction-and-measure pass: drop records older than the window,
    /// then recompute the derived metrics and the trend table from what is
    /// left. The window length itself is untouched.
    fn evict_measure(&mut self, now_ms: i64)
        requires
            core_inv(old(self)),
            now_ms >= 0,
        ensures
            core_inv(final(self)),
            measured(final(self), now_ms as int),
            final(self).records@.len() <= old(self).records@.len(),
            final(self).records@ == old(self).records@.take(final(self).records@.len() as int),
            forall|i: int| #![trigger old(self).records@[i]]
                final(self).records@.len() <= i < old(self).records@.len() ==> old(
                    self,
                ).records@[i].spec_recv_millis() < now_ms - final(self).stat.window_ms,
            final(self).stat.window_ms == old(self).stat.window_ms,
            final(self).stat.previous_window_ms == old(self).stat.previous_window_ms,
            final(self).stat.peak_rate >= old(self).stat.peak_rate,
            final(self).stat.collected_interval_ms <= 100 ==> final(self).stat.rate == old(
                self,
            ).stat.rate,
            final(self).stat.collected_interval_ms < 1000 ==> final(self).stat.peak_rate == old(
                self,
            ).stat.peak_rate,
            final(self).stat.collected_interval_ms >= 1000 ==> final(self).stat.peak_rate == (
            if final(self).stat.rate > old(self).stat.peak_rate {
                final(self).stat.rate
            } else {
                old(self).stat.peak_rate
            }),
            final(self).stat.last_second_received@ == old(self).stat.last_second_received@,
            final(self).interner == old(self).interner,
            final(self).records@.len() == 0 ==> final(self).stat.error_msg_rates@ == old(
                self,
            ).stat.error_msg_rates@,
    {
        let window = self.stat.window_ms;
        let oldest: i64 = now_ms - window as i64;
        loop
            invariant
                core_inv(self),
                now_ms >= 0,
                window == self.stat.window_ms,
                window == old(self).stat.window_ms,
                oldest == now_ms - window,
                self.records@.len() <= old(self).records@.len(),
                self.records@ == old(self).records@.take(self.records@.len() as int),
                forall|i: int| #![trigger old(self).records@[i]]
                    self.records@.len() <= i < old(self).records@.len() ==> old(
                        self,
                    ).records@[i].spec_recv_millis() < oldest,
                same_derived(&old(self).stat, &self.stat),
                self.interner == old(self).interner,
            ensures
                core_inv(self),
                self.records@.len() <= old(self).records@.len(),
                self.records@ == old(self).records@.take(self.records@.len() as int),
                forall|i: int| #![trigger old(self).records@[i]]
                    self.records@.len() <= i < old(self).records@.len() ==> old(
                        self,
                    ).records@[i].spec_recv_millis() < oldest,
                forall|i: int| #![trigger self.records@[i]]
                    0 <= i < self.records@.len() ==> self.records@[i].spec_recv_millis() >= oldest,
                same_derived(&old(self).stat, &self.stat),
                self.stat.window_ms == window,
                self.interner == old(self).interner,
            decreases self.records.len(),
        {
            let n = self.records.len();
            if n == 0 {
                break;
            }
            let last = self.records[n - 1];
            if last.recv_timestamp_millis() < oldest {
                let ghost recs0 = self.records@;
                proof {
                    assert(recs0.last() == last);
                    lemma_back_dec_ok(&self.stat, recs0);
                }
                self.records.pop_back();
                proof {
                    assert(self.records@ =~= recs0.drop_last());
                }
                let ghost pre = self.stat;
                self.stat.apply(last, Act::Dec);
                proof {
                    lemma_dec_maintains(&pre, &self.stat, recs0, last);
                    assert(self.records@ =~= old(self).records@.take(
                        self.records@.len() as int,
                    ));
                }
            } else {
                proof {
                    assert forall|i: int| #![trigger self.records@[i]]
                        0 <= i < self.records@.len() implies self.records@[
                        i
                    ].spec_recv_millis() >= oldest by {
                        assert(self.records@[i].spec_recv_millis() >= self.records@[
                            self.records@.len() - 1
                        ].spec_recv_millis());
                    }
                }
                break;
            }
        }
        let n = self.records.len();
        self.stat.entries = n as u64;
        if n > 0 {
            let front = self.records[0];
            let back = self.records[n - 1];
            let iv128 = (front.recv_timestamp_millis() as i128) - (back.recv_timestamp_millis()
                as i128);
            proof {
                assert(self.records@[0].spec_recv_millis() >= self.records@[
                    self.records@.len() - 1
                ].spec_recv_millis());
            }
            let iv: i64 = if iv128 > i64::MAX as i128 {
                i64::MAX
            } else {
                iv128 as i64
            };
            self.stat.collected_interval_ms = iv;
        } else {
            self.stat.collected_interval_ms = 0;
        }
        if self.stat.collected_interval_ms > 100 {
            let r128 = (self.stat.entries as u128) * 1000 / (self.stat.collected_interval_ms
                as u128);
            self.stat.rate = if r128 > 0xFFFF_FFFF_FFFF_FFFFu128 {
                u64::MAX
            } else {
                r128 as u64
            };
        }
        if self.stat.collected_interval_ms >= 1000 {
            if self.stat.rate > self.stat.peak_rate {
                self.stat.peak_rate = self.stat.rate;
            }
        }
        proof {
            lemma_partition(self.records@);
            lemma_counts_nonneg(self.records@);
        }
        if self.stat.entries > 0 {
            let pm = (self.stat.errors as u128) * 1000 / (self.stat.entries as u128);
            proof {
                assert(self.stat.errors <= self.records@.len());
                assert((self.stat.errors as u128) * 1000 <= (self.stat.entries as u128) * 1000)
                    by (nonlinear_arith)
                    requires
                        self.stat.errors <= self.stat.entries,
                ;
                assert(pm as int <= 1000) by (nonlinear_arith)
                    requires
                        pm as int == (self.stat.errors as int) * 1000 / (self.stat.entries as int),
                        (self.stat.errors as int) * 1000 <= (self.stat.entries as int) * 1000,
                        self.stat.entries > 0,
                ;
            }
            self.stat.error_rate_permille = pm as u64;
        } else {
            self.stat.error_rate_permille = 0;
        }
        if n > 0 {
            let front = self.records[0];
            let back = self.records[n - 1];
            let d128 = (front.log_timestamp_millis() as i128) - (back.log_timestamp_millis()
                as i128);
            let span128 = if d128 < MSG_ERROR_WINDOW_MS as i128 {
                MSG_ERROR_WINDOW_MS as i128
            } else {
                d128
            };
            let span: i64 = if span128 > i64::MAX as i128 {
                i64::MAX
            } else {
                span128 as i64
            };
            self.stat.error_msg_rates = crate::trend::compute_trend(
                &self.stat.error_msg_per_sec,
                &self.stat.error_msg_counts,
                now_ms,
                span,
            );
        }
    }

    /// The adaptive-window step: when the expected number of records a
    /// window would hold drifts out of the target band, pick the desired
    /// window length instead. Returns whether the window changed.
    fn adjust_window(&mut self) -> (changed: bool)
        requires
            core_inv(old(self)),
        ensures
            core_inv(final(self)),
            final(self).records@ == old(self).records@,
            final(self).interner == old(self).interner,
            final(self).stat.entries == old(self).stat.entries,
            final(self).stat.collected_interval_ms == old(self).stat.collected_interval_ms,
            final(self).stat.rate == old(self).stat.rate,
            final(self).stat.peak_rate == old(self).stat.peak_rate,
            final(self).stat.error_rate_permille == old(self).stat.error_rate_permille,
            final(self).stat.errors == old(self).stat.errors,
            final(self).stat.infos == old(self).stat.infos,
            final(self).stat.debugs == old(self).stat.debugs,
            final(self).stat.malformed == old(self).stat.malformed,
            final(self).stat.error_msg_counts@ == old(self).stat.error_msg_counts@,
            final(self).stat.error_msg_per_sec@ == old(self).stat.error_msg_per_sec@,
            final(self).stat.error_msg_rates@ == old(self).stat.error_msg_rates@,
            final(self).stat.last_second_received@ == old(self).stat.last_second_received@,
            !changed ==> final(self).stat.window_ms == old(self).stat.window_ms,
            !changed ==> final(self).stat.previous_window_ms == old(self).stat.previous_window_ms,
            !changed ==> window_stable(&final(self).stat),
            changed ==> old(self).stat.rate > 0,
            changed ==> final(self).stat.window_ms == desired_window_ms(
                old(self).stat.rate as int,
            ),
            changed ==> final(self).stat.window_ms != old(self).stat.window_ms,
            changed ==> final(self).stat.previous_window_ms == old(self).stat.window_ms,
    {
        if self.stat.rate == 0 {
            return false;
        }
        proof {
            assert((self.stat.rate as u128) * (self.stat.window_ms as u128)
                <= 18_446_744_073_709_551_615u128 * 120_000u128) by (nonlinear_arith)
                requires
                    self.stat.rate <= 18_446_744_073_709_551_615u64,
                    self.stat.window_ms <= 120_000,
            ;
        }
        let expected = (self.stat.rate as u128) * (self.stat.window_ms as u128) / 1000;
        if expected > 100_000 || expected < 75_000 {
            let secs = 100_000u64 / self.stat.rate;
            let clamped = if secs < 30 {
                30u64
            } else if secs > 120 {
                120u64
            } else {
                secs
            };
            let new_window = clamped * 1000;
            if new_window != self.stat.window_ms {
                self.stat.previous_window_ms = self.stat.window_ms;
                self.stat.window_ms = new_window;
                return true;
            }
        }
        false
    }

    /// Enforce the window: evict stale records, refresh the derived
    /// metrics, and adapt the window length, repeating while the window
    /// keeps changing (three adjustments at most, a termination bound the
    /// controller never reaches in steady state). The first result says
    /// whether the controller came to rest; the second whether the window
    /// was adjusted at all. When it was not, the call was one eviction
    /// pass: the window is untouched and each metric relates to its old
    /// value exactly as one pass leaves it.
    pub fn cleanup_and_adjust(&mut self, now_ms: i64) -> (r: (bool, bool))
        requires
            core_inv(old(self)),
            now_ms >= 0,
        ensures
            core_inv(final(self)),
            measured(final(self), now_ms as int),
            final(self).records@.len() <= old(self).records@.len(),
            final(self).records@ == old(self).records@.take(final(self).records@.len() as int),
            forall|i: int| #![trigger old(self).records@[i]]
                final(self).records@.len() <= i < old(self).records@.len() ==> old(
                    self,
                ).records@[i].spec_recv_millis() < now_ms - MIN_WINDOW_MS,
            final(self).stat.peak_rate >= old(self).stat.peak_rate,
            final(self).stat.last_second_received@ == old(self).stat.last_second_received@,
            final(self).interner == old(self).interner,
            r.0 ==> window_stable(&final(self).stat),
            !r.1 ==> r.0,
            !r.1 ==> final(self).stat.window_ms == old(self).stat.window_ms,
            !r.1 ==> final(self).stat.previous_window_ms == old(self).stat.previous_window_ms,
            !r.1 ==> (final(self).stat.collected_interval_ms <= 100 ==> final(self).stat.rate
                == old(self).stat.rate),
            !r.1 ==> (final(self).stat.collected_interval_ms < 1000
                ==> final(self).stat.peak_rate == old(self).stat.peak_rate),
            !r.1 ==> (final(self).stat.collected_interval_ms >= 1000
                ==> final(self).stat.peak_rate == (if final(self).stat.rate > old(
                self,
            ).stat.peak_rate {
                final(self).stat.rate
            } else {
                old(self).stat.peak_rate
            })),
            !r.1 ==> (final(self).records@.len() == 0 ==> final(self).stat.error_msg_rates@
                == old(self).stat.error_msg_rates@),
            r.1 ==> final(self).stat.previous_window_ms != final(self).stat.window_ms,
            old(self).records@.len() == 0 && old(self).stat.rate == 0 ==> !r.1,
    {
        self.evict_measure(now_ms);
        let first_changed = self.adjust_window();
        if !first_changed {
            return (true, false);
        }
        // The window moved: pass again under the new length, at most twice
        // more, always ending on an eviction pass so the metrics match the
        // settled window.
        let mut stable = false;
        let mut guard: u8 = 0;
        loop
            invariant_except_break
                !stable,
            invariant
                core_inv(self),
                now_ms >= 0,
                guard <= 2,
                self.records@.len() <= old(self).records@.len(),
                self.records@ == old(self).records@.take(self.records@.len() as int),
                forall|i: int| #![trigger old(self).records@[i]]
                    self.records@.len() <= i < old(self).records@.len() ==> old(
                        self,
                    ).records@[i].spec_recv_millis() < now_ms - MIN_WINDOW_MS,
                self.stat.peak_rate >= old(self).stat.peak_rate,
                self.stat.last_second_received@ == old(self).stat.last_second_received@,
                self.interner == old(self).interner,
                self.stat.previous_window_ms != self.stat.window_ms,
            ensures
                core_inv(self),
                measured(self, now_ms as int),
                self.records@.len() <= old(self).records@.len(),
                self.records@ == old(self).records@.take(self.records@.len() as int),
                forall|i: int| #![trigger old(self).records@[i]]
                    self.records@.len() <= i < old(self).records@.len() ==> old(
                        self,
                    ).records@[i].spec_recv_millis() < now_ms - MIN_WINDOW_MS,
                self.stat.peak_rate >= old(self).stat.peak_rate,
                self.stat.last_second_received@ == old(self).stat.last_second_received@,
                self.interner == old(self).interner,
                stable ==> window_stable(&self.stat),
                self.stat.previous_window_ms != self.stat.window_ms,
            decreases 3 - guard,
        {
            let ghost pre = *self;
            self.evict_measure(now_ms);
            proof {
                assert(self.records@ =~= old(self).records@.take(self.records@.len() as int));
                assert forall|i: int| #![trigger old(self).records@[i]]
                    self.records@.len() <= i < old(self).records@.len() implies old(
                    self,
                ).records@[i].spec_recv_millis() < now_ms - MIN_WINDOW_MS by {
                    if i < pre.records@.len() {
                        assert(pre.records@[i] == old(self).records@[i]);
                    }
                }
            }
            if guard >= 2 {
                break;
            }
            guard = guard + 1;
            let changed = self.adjust_window();
            if !changed {
                stable = true;
                break;
            }
        }
        (stable, true)
    }

    /// Ingest a parsed record: track its receive time, intern its message,
    /// count it in, put it at the front of the window, and bring the window
    /// up to date. Returns whether the window controller came to rest.
    pub fn process_ok(&mut self, rec: StatOKRecord, now_ms: i64) -> (stable: bool)
        requires
            core_inv(old(self)),
            now_ms >= 0,
            old(self).records@.len() > 0 ==> rec.received_millis >= old(
                self,
            ).records@[0].spec_recv_millis(),
        ensures
            core_inv(final(self)),
            ok_ingested(old(self), final(self), rec, now_ms as int),
    {
        self.stat.refresh_last_second(Some(rec.received_millis), now_ms);
        let msg_id = self.interner.intern(rec.message);
        let inner = InnerRecord::OK(
            InnerOKRecord {
                received_millis: rec.received_millis,
                logged_millis: rec.logged_millis,
                level: rec.level,
                msg_id,
            },
        );
        let ghost recs0 = self.records@;
        let ghost pre = self.stat;
        self.records.push_front(inner);
        let n = self.records.len();
        proof {
            assert(n == recs0.len() + 1);
            lemma_partition(recs0);
            lemma_counts_nonneg(recs0);
            assert(pre.errors + pre.infos + pre.debugs + pre.malformed == recs0.len());
        }
        self.stat.apply(inner, Act::Inc);
        proof {
            lemma_inc_maintains(&pre, &self.stat, recs0, inner);
            assert(self.records@ == seq![inner] + recs0);
            assert forall|i: int, j: int| #![trigger self.records@[i], self.records@[j]]
                0 <= i <= j < self.records@.len() implies self.records@[i].spec_recv_millis()
                >= self.records@[j].spec_recv_millis() by {
                if i == 0 && j > 0 {
                    assert(self.records@[j] == recs0[j - 1]);
                    assert(recs0[0].spec_recv_millis() >= recs0[j - 1].spec_recv_millis());
                } else if i > 0 {
                    assert(self.records@[i] == recs0[i - 1]);
                    assert(self.records@[j] == recs0[j - 1]);
                }
            }
        }
        let ghost mid = *self;
        let ghost pushed = seq![interned_of(texts(&old(self).interner), rec)] + old(
            self,
        ).records@;
        proof {
            assert(inner == interned_of(texts(&old(self).interner), rec));
            assert(pushed =~= mid.records@);
        }
        let r = self.cleanup_and_adjust(now_ms);
        proof {
            assert forall|i: int| #![trigger pushed[i]]
                self.records@.len() <= i < pushed.len() implies pushed[i].spec_recv_millis()
                < now_ms - MIN_WINDOW_MS by {
                assert(mid.records@[i] == pushed[i]);
            }
        }
        r.0
    }

    /// Ingest a malformed marker: count it and put it at the front of the
    /// window. Eviction catches up on the next parsed record or reporting
    /// tick.
    pub fn process_err(&mut self, rec: StatErrRecord)
        requires
            core_inv(old(self)),
            old(self).records@.len() > 0 ==> rec.received_millis >= old(
                self,
            ).records@[0].spec_recv_millis(),
        ensures
            core_inv(final(self)),
            err_ingested(old(self), final(self), rec),
    {
        let inner = InnerRecord::Malformed(
            crate::types::InnerErrRecord {
                received_millis: rec.received_millis,
                err_type: rec.error_type,
            },
        );
        let ghost recs0 = self.records@;
        let ghost pre = self.stat;
        self.records.push_front(inner);
        let n = self.records.len();
        proof {
            assert(n == recs0.len() + 1);
            lemma_partition(recs0);
            lemma_counts_nonneg(recs0);
            assert(pre.errors + pre.infos + pre.debugs + pre.malformed == recs0.len());
        }
        self.stat.apply(inner, Act::Inc);
        proof {
            lemma_inc_maintains(&pre, &self.stat, recs0, inner);
            assert(self.records@ == seq![inner] + recs0);
            assert forall|i: int, j: int| #![trigger self.records@[i], self.records@[j]]
                0 <= i <= j < self.records@.len() implies self.records@[i].spec_recv_millis()
                >= self.records@[j].spec_recv_millis() by {
                if i == 0 && j > 0 {
                    assert(self.records@[j] == recs0[j - 1]);
                    assert(recs0[0].spec_recv_millis() >= recs0[j - 1].spec_recv_millis());
                } else if i > 0 {
                    assert(self.records@[i] == recs0[i - 1]);
                    assert(self.records@[j] == recs0[j - 1]);
                }
            }
        }
    }

    /// The consumer's per-message decision: ingest a parsed or malformed
    /// record and keep going, or stop on the poison pill.
    pub fn process_record(&mut self, rec: StatRecord, now_ms: i64) -> (cont: bool)
        requires
            core_inv(old(self)),
            now_ms >= 0,
            !(rec is Stop) && old(self).records@.len() > 0 ==> rec.spec_received_millis() >= old(
                self,
            ).records@[0].spec_recv_millis(),
        ensures
            core_inv(final(self)),
            cont == !(rec is Stop),
            rec is Stop ==> *final(self) == *old(self),
            rec matches StatRecord::OK(ok) ==> ok_ingested(
                old(self),
                final(self),
                ok,
                now_ms as int,
            ),
            rec matches StatRecord::Malformed(err) ==> err_ingested(old(self), final(self), err),
    {
        match rec {
            StatRecord::OK(ok) => {
                self.process_ok(ok, now_ms);
                true
            },
            StatRecord::Malformed(err) => {
                self.process_err(err);
                true
            },
            StatRecord::Stop => false,
        }
    }
}

/// Counter coherence: inside the invariant, the four counters always
/// partition the records in the window.
pub proof fn lemma_counter_coherence(st: &Stats)
    requires
        core_inv(st),
    ensures
        st.stat.errors + st.stat.infos + st.stat.debugs + st.stat.malformed
            == st.records@.len(),
{
    lemma_partition(st.records@);
}

/// Histogram coherence: inside the invariant, every per-message count is
/// the sum of that message's per-second counts, and ids absent from one
/// table are absent from the other.
pub proof fn lemma_histogram_coherence(st: &Stats)
    requires
        core_inv(st),
    ensures
        forall|id: u64|
            k_val(st.stat.error_msg_counts@, id) == crate::hist::sum_for(
                st.stat.error_msg_per_sec@,
                id,
            ),
{
}

/// Per-second pruning: inside the invariant, the histogram tables never
/// keep a zero count; a count that reaches zero loses its entry, so the
/// flat per-second table holds no empty buckets either.
pub proof fn lemma_per_sec_pruned(st: &Stats)
    requires
        core_inv(st),
    ensures
        forall|i: int| #![trigger st.stat.error_msg_per_sec@[i]]
            0 <= i < st.stat.error_msg_per_sec@.len() ==> st.stat.error_msg_per_sec@[i].2 >= 1,
        forall|i: int| #![trigger st.stat.error_msg_counts@[i]]
            0 <= i < st.stat.error_msg_counts@.len() ==> st.stat.error_msg_counts@[i].1 >= 1,
{
}

/// Window clamping: inside the invariant, the window length always sits
/// between the clamp bounds.
pub proof fn lemma_window_clamped(st: &Stats)
    requires
        core_inv(st),
    ensures
        crate::window::MIN_WINDOW_MS <= st.stat.window_ms <= crate::window::MAX_WINDOW_MS,
{
}

} // verus!
