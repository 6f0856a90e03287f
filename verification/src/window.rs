//! The sliding-window aggregate: level counters, per-message error
//! histograms, trend scores, and the adaptive window length.

use vstd::prelude::*;
use std::collections::VecDeque;
use crate::hist::{
    k_bump, k_drop, k_get, k_val, keys_distinct, idx_of, lemma_ps_push, lemma_ps_update,
    lemma_ps_val_le_sum, lemma_push, lemma_update, lemma_val_le_sum, ps_bump, ps_distinct,
    ps_drop, ps_get, ps_idx, ps_min_one, ps_val, sum_for, sum_vals, vals_min_one,
};
use crate::types::InnerRecord;
use crate::types::Level;

verus! {

/// Smallest window length the controller may pick, in milliseconds.
pub const MIN_WINDOW_MS: u64 = 30_000;

/// Largest window length the controller may pick, in milliseconds.
pub const MAX_WINDOW_MS: u64 = 120_000;

/// Window length a fresh aggregate starts with, in milliseconds.
pub const DEFAULT_WINDOW_MS: u64 = 60_000;

/// Direction of a counter update: a record entering or leaving the window.
#[derive(Clone, Copy, Debug, PartialEq, Eq, Structural)]
pub enum Act {
    Inc,
    Dec,
}

/// The aggregate the reporter reads: counters and histograms over the
/// records currently in the window, together with derived metrics.
///
/// Ratios are kept in integer fixed point: `error_rate_permille` in
/// thousandths, trend scores in `error_msg_rates` scaled by
/// [`crate::trend::TREND_SCALE`]. The renderer divides them out for
/// display.
pub struct WindowState {
    /// Number of records in the window, as of the last cleanup pass.
    pub entries: u64,
    /// Receive-time span of the windowed records, in milliseconds.
    pub collected_interval_ms: i64,
    /// Ingest rate in records per second.
    pub rate: u64,
    /// Largest rate seen over a span of at least one second.
    pub peak_rate: u64,
    /// `errors * 1000 / entries`, zero when the window is empty.
    pub error_rate_permille: u64,
    pub errors: u64,
    pub infos: u64,
    pub debugs: u64,
    pub malformed: u64,
    /// Per-message error histogram: `msg_id -> count`.
    pub error_msg_counts: Vec<(u64, u64)>,
    /// Flat per-second error histogram: `(second, msg_id) -> count`.
    pub error_msg_per_sec: Vec<(i64, u64, u64)>,
    /// Trend score per message id, scaled by [`crate::trend::TREND_SCALE`].
    pub error_msg_rates: Vec<(u64, u64)>,
    /// Current window length in milliseconds, within the clamp bounds.
    pub window_ms: u64,
    /// Window length before the last adjustment.
    pub previous_window_ms: u64,
    /// Receive timestamps seen in the trailing second, newest first.
    pub last_second_received: VecDeque<i64>,
}

/// The internal consistency of a [`WindowState`]:
/// the histogram tables have distinct keys and strictly positive counts,
/// every per-message count equals the sum of that message's per-second
/// counts, the per-message counts sum to `errors`, and the window length is
/// clamped.
pub open spec fn well_formed(ws: &WindowState) -> bool {
    &&& keys_distinct(ws.error_msg_counts@)
    &&& vals_min_one(ws.error_msg_counts@)
    &&& ps_distinct(ws.error_msg_per_sec@)
    &&& ps_min_one(ws.error_msg_per_sec@)
    &&& forall|id: u64|
        k_val(ws.error_msg_counts@, id) == sum_for(ws.error_msg_per_sec@, id)
    &&& sum_vals(ws.error_msg_counts@) == ws.errors
    &&& keys_distinct(ws.error_msg_rates@)
    &&& MIN_WINDOW_MS <= ws.window_ms <= MAX_WINDOW_MS
    &&& ws.error_rate_permille <= 1000
}

/// Fields that [`WindowState::apply`] never touches.
pub open spec fn same_derived(a: &WindowState, b: &WindowState) -> bool {
    &&& a.entries == b.entries
    &&& a.collected_interval_ms == b.collected_interval_ms
    &&& a.rate == b.rate
    &&& a.peak_rate == b.peak_rate
    &&& a.error_rate_permille == b.error_rate_permille
    &&& a.window_ms == b.window_ms
    &&& a.previous_window_ms == b.previous_window_ms
    &&& a.error_msg_rates@ == b.error_msg_rates@
    &&& a.last_second_received@ == b.last_second_received@
}

/// Both histogram tables untouched.
pub open spec fn same_histograms(a: &WindowState, b: &WindowState) -> bool {
    &&& a.error_msg_counts@ == b.error_msg_counts@
    &&& a.error_msg_per_sec@ == b.error_msg_per_sec@
}

/// What a decrement needs: the record's own key must still be counted.
pub open spec fn dec_ok(ws: &WindowState, rec: InnerRecord) -> bool {
    match rec {
        InnerRecord::OK(ok) => match ok.level {
            Level::ERROR => ps_get(
                ws.error_msg_per_sec@,
                rec.spec_log_sec() as i64,
                ok.msg_id,
            ) is Some,
            Level::INFO => ws.infos >= 1,
            Level::DEBUG => ws.debugs >= 1,
        },
        InnerRecord::Malformed(_) => ws.malformed >= 1,
    }
}

/// The exact effect of [`WindowState::apply`] on the counters and
/// histograms: `post` is `pre` with the one record counted in or out.
pub open spec fn applied(pre: &WindowState, post: &WindowState, rec: InnerRecord, act: Act) -> bool {
    &&& same_derived(pre, post)
    &&& match rec {
        InnerRecord::OK(ok) => match ok.level {
            Level::ERROR => {
                let sec = rec.spec_log_sec() as i64;
                let id = ok.msg_id;
                &&& post.infos == pre.infos
                &&& post.debugs == pre.debugs
                &&& post.malformed == pre.malformed
                &&& match act {
                    Act::Inc => {
                        &&& post.errors == pre.errors + 1
                        &&& (k_get(pre.error_msg_counts@, id) is Some ==> post.error_msg_counts@
                            == pre.error_msg_counts@.update(
                            idx_of(pre.error_msg_counts@, id),
                            (id, (k_val(pre.error_msg_counts@, id) + 1) as u64),
                        ))
                        &&& (k_get(pre.error_msg_counts@, id) is None ==> post.error_msg_counts@
                            == pre.error_msg_counts@.push((id, 1u64)))
                        &&& (ps_get(pre.error_msg_per_sec@, sec, id) is Some
                            ==> post.error_msg_per_sec@ == pre.error_msg_per_sec@.update(
                            ps_idx(pre.error_msg_per_sec@, sec, id),
                            (sec, id, (ps_val(pre.error_msg_per_sec@, sec, id) + 1) as u64),
                        ))
                        &&& (ps_get(pre.error_msg_per_sec@, sec, id) is None
                            ==> post.error_msg_per_sec@ == pre.error_msg_per_sec@.push(
                            (sec, id, 1u64),
                        ))
                    },
                    Act::Dec => {
                        &&& post.errors == pre.errors - 1
                        &&& (k_val(pre.error_msg_counts@, id) > 1 ==> post.error_msg_counts@
                            == pre.error_msg_counts@.update(
                            idx_of(pre.error_msg_counts@, id),
                            (id, (k_val(pre.error_msg_counts@, id) - 1) as u64),
                        ))
                        &&& (k_val(pre.error_msg_counts@, id) == 1 ==> post.error_msg_counts@
                            == pre.error_msg_counts@.remove(idx_of(pre.error_msg_counts@, id)))
                        &&& (ps_val(pre.error_msg_per_sec@, sec, id) > 1
                            ==> post.error_msg_per_sec@ == pre.error_msg_per_sec@.update(
                            ps_idx(pre.error_msg_per_sec@, sec, id),
                            (sec, id, (ps_val(pre.error_msg_per_sec@, sec, id) - 1) as u64),
                        ))
                        &&& (ps_val(pre.error_msg_per_sec@, sec, id) == 1
                            ==> post.error_msg_per_sec@ == pre.error_msg_per_sec@.remove(
                            ps_idx(pre.error_msg_per_sec@, sec, id),
                        ))
                    },
                }
            },
            Level::INFO => {
                &&& same_histograms(pre, post)
                &&& post.errors == pre.errors
                &&& post.debugs == pre.debugs
                &&& post.malformed == pre.malformed
                &&& post.infos == match act {
                    Act::Inc => pre.infos + 1,
                    Act::Dec => pre.infos - 1,
                }
            },
            Level::DEBUG => {
                &&& same_histograms(pre, post)
                &&& post.errors == pre.errors
                &&& post.infos == pre.infos
                &&& post.malformed == pre.malformed
                &&& post.debugs == match act {
                    Act::Inc => pre.debugs + 1,
                    Act::Dec => pre.debugs - 1,
                }
            },
        },
        InnerRecord::Malformed(_) => {
            &&& same_histograms(pre, post)
            &&& post.errors == pre.errors
            &&& post.infos == pre.infos
            &&& post.debugs == pre.debugs
            &&& post.malformed == match act {
                Act::Inc => pre.malformed + 1,
                Act::Dec => pre.malformed - 1,
            }
        },
    }
}

/// Field-wise equality of two window states, reading the tables as their
/// contents.
pub open spec fn state_eq(a: &WindowState, b: &WindowState) -> bool {
    &&& same_derived(a, b)
    &&& same_histograms(a, b)
    &&& a.errors == b.errors
    &&& a.infos == b.infos
    &&& a.debugs == b.debugs
    &&& a.malformed == b.malformed
}

impl WindowState {
    /// A fresh, empty aggregate with the default window length.
    pub fn new() -> (ws: WindowState)
        ensures
            well_formed(&ws),
            ws.entries == 0,
            ws.collected_interval_ms == 0,
            ws.rate == 0,
            ws.peak_rate == 0,
            ws.error_rate_permille == 0,
            ws.errors == 0,
            ws.infos == 0,
            ws.debugs == 0,
            ws.malformed == 0,
            ws.error_msg_counts@.len() == 0,
            ws.error_msg_per_sec@.len() == 0,
            ws.error_msg_rates@.len() == 0,
            ws.window_ms == DEFAULT_WINDOW_MS,
            ws.previous_window_ms == DEFAULT_WINDOW_MS,
            ws.last_second_received@.len() == 0,
    {
        WindowState {
            entries: 0,
            collected_interval_ms: 0,
            rate: 0,
            peak_rate: 0,
            error_rate_permille: 0,
            errors: 0,
            infos: 0,
            debugs: 0,
            malformed: 0,
            error_msg_counts: Vec::new(),
            error_msg_per_sec: Vec::new(),
            error_msg_rates: Vec::new(),
            window_ms: DEFAULT_WINDOW_MS,
            previous_window_ms: DEFAULT_WINDOW_MS,
            last_second_received: VecDeque::new(),
        }
    }

    /// Count one record in (`Act::Inc`) or out (`Act::Dec`) of the window's
    /// counters and error histograms. This is the only place the per-second
    /// table is pruned: a per-second count that reaches zero loses its entry.
    pub fn apply(&mut self, rec: InnerRecord, act: Act)
        requires
            well_formed(old(self)),
            act == Act::Inc ==> old(self).errors + old(self).infos + old(self).debugs + old(
                self,
            ).malformed < u64::MAX,
            act == Act::Dec ==> dec_ok(old(self), rec),
        ensures
            well_formed(final(self)),
            applied(old(self), final(self), rec, act),
    {
        match rec {
            InnerRecord::OK(ok) => {
                match ok.level {
                    Level::ERROR => {
                        let sec = rec.log_timestamp();
                        match act {
                            Act::Inc => {
                                proof {
                                    if k_get(self.error_msg_counts@, ok.msg_id) is Some {
                                        lemma_val_le_sum(self.error_msg_counts@, ok.msg_id);
                                    }
                                    if ps_get(self.error_msg_per_sec@, sec, ok.msg_id) is Some {
                                        lemma_ps_val_le_sum(
                                            self.error_msg_per_sec@,
                                            sec,
                                            ok.msg_id,
                                        );
                                    }
                                }
                                self.errors = self.errors + 1;
                                k_bump(&mut self.error_msg_counts, ok.msg_id);
                                ps_bump(&mut self.error_msg_per_sec, sec, ok.msg_id);
                            },
                            Act::Dec => {
                                proof {
                                    crate::hist::lemma_ps_idx_of_some(
                                        self.error_msg_per_sec@,
                                        sec,
                                        ok.msg_id,
                                    );
                                    lemma_ps_val_le_sum(self.error_msg_per_sec@, sec, ok.msg_id);
                                    assert(ps_val(self.error_msg_per_sec@, sec, ok.msg_id) >= 1);
                                    assert(k_val(self.error_msg_counts@, ok.msg_id) == sum_for(
                                        self.error_msg_per_sec@,
                                        ok.msg_id,
                                    ));
                                    assert(k_get(self.error_msg_counts@, ok.msg_id) is Some);
                                    lemma_val_le_sum(self.error_msg_counts@, ok.msg_id);
                                }
                                self.errors = self.errors - 1;
                                k_drop(&mut self.error_msg_counts, ok.msg_id);
                                ps_drop(&mut self.error_msg_per_sec, sec, ok.msg_id);
                            },
                        }
                    },
                    Level::INFO => {
                        match act {
                            Act::Inc => {
                                self.infos = self.infos + 1;
                            },
                            Act::Dec => {
                                self.infos = self.infos - 1;
                            },
                        }
                    },
                    Level::DEBUG => {
                        match act {
                            Act::Inc => {
                                self.debugs = self.debugs + 1;
                            },
                            Act::Dec => {
                                self.debugs = self.debugs - 1;
                            },
                        }
                    },
                }
            },
            InnerRecord::Malformed(_) => {
                match act {
                    Act::Inc => {
                        self.malformed = self.malformed + 1;
                    },
                    Act::Dec => {
                        self.malformed = self.malformed - 1;
                    },
                }
            },
        }
    }
}

/// The trailing-second tracker after pushing an optional new timestamp and
/// evicting, from the back, everything older than a second.
pub open spec fn trim_back(s: Seq<i64>, now: int) -> Seq<i64>
    decreases s.len(),
{
    if s.len() > 0 && now - s.last() > 1000 {
        trim_back(s.drop_last(), now)
    } else {
        s
    }
}

impl WindowState {
    /// Push a just-received timestamp (if any) and drop tracked timestamps
    /// older than one second, so the tracker's length is the last-second
    /// receive count.
    pub fn refresh_last_second(&mut self, ts: Option<i64>, now_ms: i64)
        ensures
            final(self).last_second_received@ == trim_back(
                match ts {
                    Some(t) => seq![t] + old(self).last_second_received@,
                    None => old(self).last_second_received@,
                },
                now_ms as int,
            ),
            final(self).entries == old(self).entries,
            final(self).collected_interval_ms == old(self).collected_interval_ms,
            final(self).rate == old(self).rate,
            final(self).peak_rate == old(self).peak_rate,
            final(self).error_rate_permille == old(self).error_rate_permille,
            final(self).errors == old(self).errors,
            final(self).infos == old(self).infos,
            final(self).debugs == old(self).debugs,
            final(self).malformed == old(self).malformed,
            final(self).error_msg_counts@ == old(self).error_msg_counts@,
            final(self).error_msg_per_sec@ == old(self).error_msg_per_sec@,
            final(self).error_msg_rates@ == old(self).error_msg_rates@,
            final(self).window_ms == old(self).window_ms,
            final(self).previous_window_ms == old(self).previous_window_ms,
            well_formed(old(self)) ==> well_formed(final(self)),
    {
        if let Some(t) = ts {
            self.last_second_received.push_front(t);
        }
        let ghost pushed = self.last_second_received@;
        loop
            invariant
                trim_back(self.last_second_received@, now_ms as int) == trim_back(
                    pushed,
                    now_ms as int,
                ),
                self.entries == old(self).entries,
                self.collected_interval_ms == old(self).collected_interval_ms,
                self.rate == old(self).rate,
                self.peak_rate == old(self).peak_rate,
                self.error_rate_permille == old(self).error_rate_permille,
                self.errors == old(self).errors,
                self.infos == old(self).infos,
                self.debugs == old(self).debugs,
                self.malformed == old(self).malformed,
                self.error_msg_counts@ == old(self).error_msg_counts@,
                self.error_msg_per_sec@ == old(self).error_msg_per_sec@,
                self.error_msg_rates@ == old(self).error_msg_rates@,
                self.window_ms == old(self).window_ms,
                self.previous_window_ms == old(self).previous_window_ms,
            ensures
                self.last_second_received@ == trim_back(pushed, now_ms as int),
            decreases self.last_second_received.len(),
        {
            let n = self.last_second_received.len();
            if n == 0 {
                break;
            }
            let last = self.last_second_received[n - 1];
            if (now_ms as i128) - (last as i128) > 1000 {
                proof {
                    assert(self.last_second_received@.subrange(
                        0,
                        self.last_second_received@.len() - 1,
                    ) =~= self.last_second_received@.drop_last());
                }
                self.last_second_received.pop_back();
            } else {
                break;
            }
        }
    }
}

/// Counting a record in and then straight back out returns the aggregate to
/// exactly the state it started in.
pub proof fn lemma_apply_symmetry(
    ws0: WindowState,
    ws1: WindowState,
    ws2: WindowState,
    rec: InnerRecord,
)
    requires
        well_formed(&ws0),
        applied(&ws0, &ws1, rec, Act::Inc),
        well_formed(&ws1),
        applied(&ws1, &ws2, rec, Act::Dec),
    ensures
        state_eq(&ws2, &ws0),
{
    match rec {
        InnerRecord::OK(ok) => {
            if ok.level is ERROR {
                let sec = rec.spec_log_sec() as i64;
                let id = ok.msg_id;
                let c0 = ws0.error_msg_counts@;
                let c1 = ws1.error_msg_counts@;
                let c2 = ws2.error_msg_counts@;
                if k_get(c0, id) is Some {
                    let i = idx_of(c0, id);
                    let v = k_val(c0, id);
                    crate::hist::lemma_idx_of_some(c0, id);
                    assert(v >= 1);
                    lemma_update(c0, i, id, (v + 1) as u64);
                    assert(c1 == c0.update(i, (id, (v + 1) as u64)));
                    assert(k_val(c1, id) == v + 1 && idx_of(c1, id) == i);
                    assert(c2 == c1.update(i, (id, v as u64)));
                    assert(c2 =~= c0);
                } else {
                    let n = c0.len() as int;
                    lemma_push(c0, id, 1u64);
                    assert(c1 == c0.push((id, 1u64)));
                    assert(k_val(c1, id) == 1 && idx_of(c1, id) == n);
                    assert(c2 == c1.remove(n));
                    assert(c2 =~= c0);
                }
                let p0 = ws0.error_msg_per_sec@;
                let p1 = ws1.error_msg_per_sec@;
                let p2 = ws2.error_msg_per_sec@;
                if ps_get(p0, sec, id) is Some {
                    let i = ps_idx(p0, sec, id);
                    let v = ps_val(p0, sec, id);
                    crate::hist::lemma_ps_idx_of_some(p0, sec, id);
                    assert(v >= 1);
                    lemma_ps_update(p0, i, sec, id, (v + 1) as u64);
                    assert(p1 == p0.update(i, (sec, id, (v + 1) as u64)));
                    assert(ps_val(p1, sec, id) == v + 1 && ps_idx(p1, sec, id) == i);
                    assert(p2 == p1.update(i, (sec, id, v as u64)));
                    assert(p2 =~= p0);
                } else {
                    let n = p0.len() as int;
                    lemma_ps_push(p0, sec, id, 1u64);
                    assert(p1 == p0.push((sec, id, 1u64)));
                    assert(ps_val(p1, sec, id) == 1 && ps_idx(p1, sec, id) == n);
                    assert(p2 == p1.remove(n));
                    assert(p2 =~= p0);
                }
            }
        },
        InnerRecord::Malformed(_) => {},
    }
}

} // verus!
