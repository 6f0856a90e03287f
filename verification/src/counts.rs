//! Counting records in a window sequence, the ground truth the window's
//! counters and histograms are held to. The sequence is ordered front (index
//! zero, newest) to back (oldest).

use vstd::prelude::*;
use crate::types::InnerRecord;
use crate::types::Level;

verus! {

/// One if the record is a parsed record at the given level, else zero.
pub open spec fn is_level(r: InnerRecord, lv: Level) -> int {
    match r {
        InnerRecord::OK(ok) => if ok.level == lv {
            1
        } else {
            0
        },
        InnerRecord::Malformed(_) => 0,
    }
}

/// One if the record is a malformed marker, else zero.
pub open spec fn is_malformed(r: InnerRecord) -> int {
    match r {
        InnerRecord::OK(_) => 0,
        InnerRecord::Malformed(_) => 1,
    }
}

/// One if the record is an error with the given message id, else zero.
pub open spec fn is_msg(r: InnerRecord, id: u64) -> int {
    match r {
        InnerRecord::OK(ok) => if ok.level == Level::ERROR && ok.msg_id == id {
            1
        } else {
            0
        },
        InnerRecord::Malformed(_) => 0,
    }
}

/// One if the record is an error with the given message id logged in the
/// given second, else zero.
pub open spec fn is_sec_msg(r: InnerRecord, sec: i64, id: u64) -> int {
    match r {
        InnerRecord::OK(ok) => if ok.level == Level::ERROR && ok.msg_id == id
            && r.spec_log_sec() == sec {
            1
        } else {
            0
        },
        InnerRecord::Malformed(_) => 0,
    }
}

/// Number of parsed records at the given level.
pub open spec fn count_level(s: Seq<InnerRecord>, lv: Level) -> int
    decreases s.len(),
{
    if s.len() == 0 {
        0
    } else {
        is_level(s[0], lv) + count_level(s.drop_first(), lv)
    }
}

/// Number of malformed markers.
pub open spec fn count_malformed(s: Seq<InnerRecord>) -> int
    decreases s.len(),
{
    if s.len() == 0 {
        0
    } else {
        is_malformed(s[0]) + count_malformed(s.drop_first())
    }
}

/// Number of error records with the given message id.
pub open spec fn count_msg(s: Seq<InnerRecord>, id: u64) -> int
    decreases s.len(),
{
    if s.len() == 0 {
        0
    } else {
        is_msg(s[0], id) + count_msg(s.drop_first(), id)
    }
}

/// Number of error records with the given message id logged in the given
/// second.
pub open spec fn count_sec_msg(s: Seq<InnerRecord>, sec: i64, id: u64) -> int
    decreases s.len(),
{
    if s.len() == 0 {
        0
    } else {
        is_sec_msg(s[0], sec, id) + count_sec_msg(s.drop_first(), sec, id)
    }
}

/// Prepending a record raises each count by exactly that record's
/// contribution.
pub proof fn lemma_prepend(s: Seq<InnerRecord>, r: InnerRecord)
    ensures
        forall|lv: Level| count_level(seq![r] + s, lv) == count_level(s, lv) + is_level(r, lv),
        count_malformed(seq![r] + s) == count_malformed(s) + is_malformed(r),
        forall|id: u64| count_msg(seq![r] + s, id) == count_msg(s, id) + is_msg(r, id),
        forall|sec: i64, id: u64|
            count_sec_msg(seq![r] + s, sec, id) == count_sec_msg(s, sec, id) + is_sec_msg(
                r,
                sec,
                id,
            ),
{
    let t = seq![r] + s;
    assert(t.drop_first() =~= s);
    assert(t[0] == r);
}

/// Dropping the oldest record lowers each count by exactly that record's
/// contribution.
pub proof fn lemma_drop_last(s: Seq<InnerRecord>)
    requires
        s.len() > 0,
    ensures
        forall|lv: Level|
            count_level(s, lv) == count_level(s.drop_last(), lv) + is_level(s.last(), lv),
        count_malformed(s) == count_malformed(s.drop_last()) + is_malformed(s.last()),
        forall|id: u64| count_msg(s, id) == count_msg(s.drop_last(), id) + is_msg(s.last(), id),
        forall|sec: i64, id: u64|
            count_sec_msg(s, sec, id) == count_sec_msg(s.drop_last(), sec, id) + is_sec_msg(
                s.last(),
                sec,
                id,
            ),
    decreases s.len(),
{
    if s.len() == 1 {
        assert(s.drop_last() =~= Seq::<InnerRecord>::empty());
        assert(s.drop_first() =~= Seq::<InnerRecord>::empty());
        assert(s.last() == s[0]);
    } else {
        lemma_drop_last(s.drop_first());
        assert(s.drop_last().drop_first() =~= s.drop_first().drop_last());
        assert(s.drop_first().last() == s.last());
        assert(s.drop_last()[0] == s[0]);
        assert forall|lv: Level|
            count_level(s, lv) == count_level(s.drop_last(), lv) + is_level(s.last(), lv) by {
            assert(count_level(s, lv) == is_level(s[0], lv) + count_level(s.drop_first(), lv));
            assert(count_level(s.drop_last(), lv) == is_level(s.drop_last()[0], lv) + count_level(
                s.drop_last().drop_first(),
                lv,
            ));
        }
        assert forall|id: u64|
            count_msg(s, id) == count_msg(s.drop_last(), id) + is_msg(s.last(), id) by {
            assert(count_msg(s, id) == is_msg(s[0], id) + count_msg(s.drop_first(), id));
            assert(count_msg(s.drop_last(), id) == is_msg(s.drop_last()[0], id) + count_msg(
                s.drop_last().drop_first(),
                id,
            ));
        }
        assert forall|sec: i64, id: u64|
            count_sec_msg(s, sec, id) == count_sec_msg(s.drop_last(), sec, id) + is_sec_msg(
                s.last(),
                sec,
                id,
            ) by {
            assert(count_sec_msg(s, sec, id) == is_sec_msg(s[0], sec, id) + count_sec_msg(
                s.drop_first(),
                sec,
                id,
            ));
            assert(count_sec_msg(s.drop_last(), sec, id) == is_sec_msg(s.drop_last()[0], sec, id)
                + count_sec_msg(s.drop_last().drop_first(), sec, id));
        }
        assert(count_malformed(s) == is_malformed(s[0]) + count_malformed(s.drop_first()));
        assert(count_malformed(s.drop_last()) == is_malformed(s.drop_last()[0]) + count_malformed(
            s.drop_last().drop_first(),
        ));
    }
}

/// Every record is exactly one of the three levels or malformed, so the four
/// counts partition the window.
pub proof fn lemma_partition(s: Seq<InnerRecord>)
    ensures
        count_level(s, Level::ERROR) + count_level(s, Level::INFO) + count_level(s, Level::DEBUG)
            + count_malformed(s) == s.len(),
    decreases s.len(),
{
    if s.len() > 0 {
        lemma_partition(s.drop_first());
    }
}

/// No count is negative.
pub proof fn lemma_counts_nonneg(s: Seq<InnerRecord>)
    ensures
        forall|lv: Level| count_level(s, lv) >= 0,
        count_malformed(s) >= 0,
        forall|id: u64| count_msg(s, id) >= 0,
        forall|sec: i64, id: u64| count_sec_msg(s, sec, id) >= 0,
    decreases s.len(),
{
    if s.len() > 0 {
        lemma_counts_nonneg(s.drop_first());
        assert forall|lv: Level| count_level(s, lv) >= 0 by {
            assert(count_level(s, lv) == is_level(s[0], lv) + count_level(s.drop_first(), lv));
        }
        assert forall|id: u64| count_msg(s, id) >= 0 by {
            assert(count_msg(s, id) == is_msg(s[0], id) + count_msg(s.drop_first(), id));
        }
        assert forall|sec: i64, id: u64| count_sec_msg(s, sec, id) >= 0 by {
            assert(count_sec_msg(s, sec, id) == is_sec_msg(s[0], sec, id) + count_sec_msg(
                s.drop_first(),
                sec,
                id,
            ));
        }
    }
}

} // verus!
