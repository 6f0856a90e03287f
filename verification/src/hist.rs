//! Small association tables kept as vectors of pairs, used for the
//! per-message error histogram (`msg_id -> count`) and the flat per-second
//! histogram (`(second, msg_id) -> count`).
//!
//! Keys are kept distinct and counts strictly positive; an increment that
//! finds no entry inserts one, a decrement that reaches zero removes the
//! entry. The spec functions below are the mathematical reading of such a
//! table; the exec helpers state their effect pointwise over keys and on the
//! relevant sums.

use vstd::prelude::*;

verus! {

/// No two entries share a key.
pub open spec fn keys_distinct(s: Seq<(u64, u64)>) -> bool {
    forall|i: int, j: int| #![trigger s[i], s[j]] 0 <= i < j < s.len() ==> s[i].0 != s[j].0
}

/// Every count is at least one.
pub open spec fn vals_min_one(s: Seq<(u64, u64)>) -> bool {
    forall|i: int| #![trigger s[i]] 0 <= i < s.len() ==> s[i].1 >= 1
}

/// The value stored under `id`, if any.
pub open spec fn k_get(s: Seq<(u64, u64)>, id: u64) -> Option<u64>
    decreases s.len(),
{
    if s.len() == 0 {
        None
    } else if s[0].0 == id {
        Some(s[0].1)
    } else {
        k_get(s.drop_first(), id)
    }
}

/// The value stored under `id`, reading an absent key as zero.
pub open spec fn k_val(s: Seq<(u64, u64)>, id: u64) -> int {
    match k_get(s, id) {
        Some(v) => v as int,
        None => 0,
    }
}

/// Index of the first entry with key `id`; the length if there is none.
pub open spec fn idx_of(s: Seq<(u64, u64)>, id: u64) -> int
    decreases s.len(),
{
    if s.len() == 0 {
        0
    } else if s[0].0 == id {
        0
    } else {
        1 + idx_of(s.drop_first(), id)
    }
}

/// Sum of all counts in the table.
pub open spec fn sum_vals(s: Seq<(u64, u64)>) -> int
    decreases s.len(),
{
    if s.len() == 0 {
        0
    } else {
        s[0].1 + sum_vals(s.drop_first())
    }
}

proof fn lemma_first_match(s: Seq<(u64, u64)>, id: u64, i: int)
    requires
        0 <= i < s.len(),
        forall|j: int| #![trigger s[j]] 0 <= j < i ==> s[j].0 != id,
        s[i].0 == id,
    ensures
        idx_of(s, id) == i,
        k_get(s, id) == Some(s[i].1),
    decreases s.len(),
{
    if i > 0 {
        lemma_first_match(s.drop_first(), id, i - 1);
    }
}

proof fn lemma_no_match(s: Seq<(u64, u64)>, id: u64)
    requires
        forall|j: int| #![trigger s[j]] 0 <= j < s.len() ==> s[j].0 != id,
    ensures
        idx_of(s, id) == s.len(),
        k_get(s, id) is None,
    decreases s.len(),
{
    if s.len() > 0 {
        lemma_no_match(s.drop_first(), id);
    }
}

/// Overwriting the entry at the key's own index changes exactly that key.
pub proof fn lemma_update(s: Seq<(u64, u64)>, i: int, id: u64, w: u64)
    requires
        keys_distinct(s),
        0 <= i < s.len(),
        s[i].0 == id,
        i == idx_of(s, id),
    ensures
        keys_distinct(s.update(i, (id, w))),
        k_get(s.update(i, (id, w)), id) == Some(w),
        forall|id2: u64| id2 != id ==> k_get(s.update(i, (id, w)), id2) == k_get(s, id2),
        sum_vals(s.update(i, (id, w))) == sum_vals(s) - s[i].1 + w,
        idx_of(s.update(i, (id, w)), id) == i,
        vals_min_one(s) && w >= 1 ==> vals_min_one(s.update(i, (id, w))),
    decreases s.len(),
{
    let t = s.update(i, (id, w));
    assert(forall|j: int| 0 <= j < s.len() && j != i ==> t[j] == s[j]);
    if i == 0 {
        assert(t.drop_first() =~= s.drop_first());
    } else {
        assert(t.drop_first() =~= s.drop_first().update(i - 1, (id, w)));
        lemma_update(s.drop_first(), i - 1, id, w);
        assert(t[0] == s[0]);
    }
    assert forall|id2: u64| id2 != id implies k_get(t, id2) == k_get(s, id2) by {
        if i == 0 {
            assert(k_get(t, id2) == k_get(t.drop_first(), id2));
            assert(k_get(s, id2) == k_get(s.drop_first(), id2));
        } else if s[0].0 == id2 {
            assert(k_get(t, id2) == Some(t[0].1));
            assert(k_get(s, id2) == Some(s[0].1));
        } else {
            assert(k_get(s.drop_first().update(i - 1, (id, w)), id2) == k_get(
                s.drop_first(),
                id2,
            ));
            assert(k_get(t, id2) == k_get(t.drop_first(), id2));
            assert(k_get(s, id2) == k_get(s.drop_first(), id2));
        }
    }
}

/// Appending a fresh key changes exactly that key and grows the sum.
pub proof fn lemma_push(s: Seq<(u64, u64)>, id: u64, w: u64)
    requires
        keys_distinct(s),
        k_get(s, id) is None,
    ensures
        keys_distinct(s.push((id, w))),
        k_get(s.push((id, w)), id) == Some(w),
        forall|id2: u64| id2 != id ==> k_get(s.push((id, w)), id2) == k_get(s, id2),
        sum_vals(s.push((id, w))) == sum_vals(s) + w,
        idx_of(s.push((id, w)), id) == s.len(),
        vals_min_one(s) && w >= 1 ==> vals_min_one(s.push((id, w))),
    decreases s.len(),
{
    let t = s.push((id, w));
    lemma_k_get_none_no_match(s, id);
    if s.len() == 0 {
        assert(t.drop_first() =~= Seq::<(u64, u64)>::empty());
        assert(sum_vals(t) == t[0].1 + sum_vals(t.drop_first()));
    } else {
        assert(t.drop_first() =~= s.drop_first().push((id, w)));
        lemma_push(s.drop_first(), id, w);
        assert(t[0] == s[0]);
        assert(sum_vals(t) == t[0].1 + sum_vals(t.drop_first()));
    }
    assert forall|id2: u64| id2 != id implies k_get(t, id2) == k_get(s, id2) by {
        if s.len() == 0 {
            assert(k_get(t, id2) == k_get(t.drop_first(), id2));
            assert(k_get(t.drop_first(), id2) is None);
        } else if s[0].0 == id2 {
            assert(k_get(t, id2) == Some(t[0].1));
            assert(k_get(s, id2) == Some(s[0].1));
        } else {
            assert(k_get(s.drop_first().push((id, w)), id2) == k_get(s.drop_first(), id2));
            assert(k_get(t, id2) == k_get(t.drop_first(), id2));
            assert(k_get(s, id2) == k_get(s.drop_first(), id2));
        }
    }
}

/// An absent key matches no entry.
proof fn lemma_k_get_none_no_match(s: Seq<(u64, u64)>, id: u64)
    requires
        k_get(s, id) is None,
    ensures
        forall|j: int| #![trigger s[j]] 0 <= j < s.len() ==> s[j].0 != id,
    decreases s.len(),
{
    if s.len() > 0 {
        lemma_k_get_none_no_match(s.drop_first(), id);
        assert(forall|j: int| 1 <= j < s.len() ==> s[j] == s.drop_first()[j - 1]);
    }
}

/// Removing the entry at the key's own index changes exactly that key.
pub proof fn lemma_remove(s: Seq<(u64, u64)>, i: int, id: u64)
    requires
        keys_distinct(s),
        0 <= i < s.len(),
        s[i].0 == id,
        i == idx_of(s, id),
    ensures
        keys_distinct(s.remove(i)),
        k_get(s.remove(i), id) is None,
        forall|id2: u64| id2 != id ==> k_get(s.remove(i), id2) == k_get(s, id2),
        sum_vals(s.remove(i)) == sum_vals(s) - s[i].1,
        vals_min_one(s) ==> vals_min_one(s.remove(i)),
    decreases s.len(),
{
    let t = s.remove(i);
    assert(forall|j: int| 0 <= j < i ==> t[j] == s[j]);
    assert(forall|j: int| i <= j < t.len() ==> t[j] == s[j + 1]);
    if i == 0 {
        assert(t =~= s.drop_first());
        lemma_distinct_no_first_match(s);
    } else {
        assert(t.drop_first() =~= s.drop_first().remove(i - 1));
        lemma_remove(s.drop_first(), i - 1, id);
        assert(t[0] == s[0]);
    }
    assert forall|id2: u64| id2 != id implies k_get(t, id2) == k_get(s, id2) by {
        if i == 0 {
            assert(k_get(s, id2) == k_get(s.drop_first(), id2));
        } else if s[0].0 == id2 {
            assert(k_get(t, id2) == Some(t[0].1));
        } else {
            assert(k_get(t, id2) == k_get(t.drop_first(), id2));
        }
    }
}

/// With distinct keys, no later entry repeats the first key.
proof fn lemma_distinct_no_first_match(s: Seq<(u64, u64)>)
    requires
        keys_distinct(s),
        s.len() > 0,
    ensures
        k_get(s.drop_first(), s[0].0) is None,
{
    lemma_no_match_from_distinct(s.drop_first(), s[0].0, s);
}

proof fn lemma_no_match_from_distinct(t: Seq<(u64, u64)>, id: u64, s: Seq<(u64, u64)>)
    requires
        keys_distinct(s),
        s.len() > 0,
        s[0].0 == id,
        t == s.drop_first(),
    ensures
        k_get(t, id) is None,
{
    assert(forall|j: int| #![trigger t[j]] 0 <= j < t.len() ==> t[j] == s[j + 1]);
    lemma_no_match(t, id);
}

/// A present key resolves to an in-range index holding it.
pub proof fn lemma_idx_of_some(s: Seq<(u64, u64)>, id: u64)
    requires
        k_get(s, id) is Some,
    ensures
        0 <= idx_of(s, id) < s.len(),
        s[idx_of(s, id)].0 == id,
        s[idx_of(s, id)].1 == k_get(s, id).unwrap(),
    decreases s.len(),
{
    if s.len() > 0 && s[0].0 != id {
        lemma_idx_of_some(s.drop_first(), id);
    }
}

/// A present key pair resolves to an in-range index holding it.
pub proof fn lemma_ps_idx_of_some(s: Seq<(i64, u64, u64)>, sec: i64, id: u64)
    requires
        ps_get(s, sec, id) is Some,
    ensures
        0 <= ps_idx(s, sec, id) < s.len(),
        s[ps_idx(s, sec, id)].0 == sec,
        s[ps_idx(s, sec, id)].1 == id,
        s[ps_idx(s, sec, id)].2 == ps_get(s, sec, id).unwrap(),
    decreases s.len(),
{
    if s.len() > 0 && !(s[0].0 == sec && s[0].1 == id) {
        lemma_ps_idx_of_some(s.drop_first(), sec, id);
    }
}

/// A stored count never exceeds the sum of all counts.
pub proof fn lemma_val_le_sum(s: Seq<(u64, u64)>, id: u64)
    requires
        k_get(s, id) is Some,
    ensures
        k_get(s, id).unwrap() <= sum_vals(s),
        sum_vals(s) >= 0,
    decreases s.len(),
{
    lemma_sum_nonneg(s);
    if s.len() > 0 && s[0].0 != id {
        lemma_val_le_sum(s.drop_first(), id);
    } else if s.len() > 0 {
        lemma_sum_nonneg(s.drop_first());
    }
}

pub proof fn lemma_sum_nonneg(s: Seq<(u64, u64)>)
    ensures
        sum_vals(s) >= 0,
    decreases s.len(),
{
    if s.len() > 0 {
        lemma_sum_nonneg(s.drop_first());
    }
}

/// No two entries share a `(second, msg_id)` key pair.
pub open spec fn ps_distinct(s: Seq<(i64, u64, u64)>) -> bool {
    forall|i: int, j: int| #![trigger s[i], s[j]]
        0 <= i < j < s.len() ==> !(s[i].0 == s[j].0 && s[i].1 == s[j].1)
}

/// Every per-second count is at least one.
pub open spec fn ps_min_one(s: Seq<(i64, u64, u64)>) -> bool {
    forall|i: int| #![trigger s[i]] 0 <= i < s.len() ==> s[i].2 >= 1
}

/// The count stored under `(sec, id)`, if any.
pub open spec fn ps_get(s: Seq<(i64, u64, u64)>, sec: i64, id: u64) -> Option<u64>
    decreases s.len(),
{
    if s.len() == 0 {
        None
    } else if s[0].0 == sec && s[0].1 == id {
        Some(s[0].2)
    } else {
        ps_get(s.drop_first(), sec, id)
    }
}

/// The count stored under `(sec, id)`, reading an absent key as zero.
pub open spec fn ps_val(s: Seq<(i64, u64, u64)>, sec: i64, id: u64) -> int {
    match ps_get(s, sec, id) {
        Some(v) => v as int,
        None => 0,
    }
}

/// Index of the first entry keyed `(sec, id)`; the length if there is none.
pub open spec fn ps_idx(s: Seq<(i64, u64, u64)>, sec: i64, id: u64) -> int
    decreases s.len(),
{
    if s.len() == 0 {
        0
    } else if s[0].0 == sec && s[0].1 == id {
        0
    } else {
        1 + ps_idx(s.drop_first(), sec, id)
    }
}

/// Sum of the counts of all seconds for one message id.
pub open spec fn sum_for(s: Seq<(i64, u64, u64)>, id: u64) -> int
    decreases s.len(),
{
    if s.len() == 0 {
        0
    } else {
        (if s[0].1 == id {
            s[0].2 as int
        } else {
            0
        }) + sum_for(s.drop_first(), id)
    }
}

proof fn lemma_ps_first_match(s: Seq<(i64, u64, u64)>, sec: i64, id: u64, i: int)
    requires
        0 <= i < s.len(),
        forall|j: int| #![trigger s[j]] 0 <= j < i ==> !(s[j].0 == sec && s[j].1 == id),
        s[i].0 == sec && s[i].1 == id,
    ensures
        ps_idx(s, sec, id) == i,
        ps_get(s, sec, id) == Some(s[i].2),
    decreases s.len(),
{
    if i > 0 {
        lemma_ps_first_match(s.drop_first(), sec, id, i - 1);
    }
}

proof fn lemma_ps_no_match(s: Seq<(i64, u64, u64)>, sec: i64, id: u64)
    requires
        forall|j: int| #![trigger s[j]] 0 <= j < s.len() ==> !(s[j].0 == sec && s[j].1 == id),
    ensures
        ps_idx(s, sec, id) == s.len(),
        ps_get(s, sec, id) is None,
    decreases s.len(),
{
    if s.len() > 0 {
        lemma_ps_no_match(s.drop_first(), sec, id);
    }
}

proof fn lemma_ps_get_none_no_match(s: Seq<(i64, u64, u64)>, sec: i64, id: u64)
    requires
        ps_get(s, sec, id) is None,
    ensures
        forall|j: int| #![trigger s[j]] 0 <= j < s.len() ==> !(s[j].0 == sec && s[j].1 == id),
    decreases s.len(),
{
    if s.len() > 0 {
        lemma_ps_get_none_no_match(s.drop_first(), sec, id);
        assert(forall|j: int| 1 <= j < s.len() ==> s[j] == s.drop_first()[j - 1]);
    }
}

pub proof fn lemma_ps_update(s: Seq<(i64, u64, u64)>, i: int, sec: i64, id: u64, w: u64)
    requires
        ps_distinct(s),
        0 <= i < s.len(),
        s[i].0 == sec && s[i].1 == id,
        i == ps_idx(s, sec, id),
    ensures
        ps_distinct(s.update(i, (sec, id, w))),
        ps_get(s.update(i, (sec, id, w)), sec, id) == Some(w),
        forall|s2: i64, id2: u64| !(s2 == sec && id2 == id)
            ==> ps_get(s.update(i, (sec, id, w)), s2, id2) == ps_get(s, s2, id2),
        sum_for(s.update(i, (sec, id, w)), id) == sum_for(s, id) - s[i].2 + w,
        forall|id2: u64| id2 != id ==> sum_for(s.update(i, (sec, id, w)), id2) == sum_for(s, id2),
        ps_idx(s.update(i, (sec, id, w)), sec, id) == i,
        ps_min_one(s) && w >= 1 ==> ps_min_one(s.update(i, (sec, id, w))),
    decreases s.len(),
{
    let t = s.update(i, (sec, id, w));
    assert(forall|j: int| 0 <= j < s.len() && j != i ==> t[j] == s[j]);
    if i == 0 {
        assert(t.drop_first() =~= s.drop_first());
    } else {
        assert(t.drop_first() =~= s.drop_first().update(i - 1, (sec, id, w)));
        lemma_ps_update(s.drop_first(), i - 1, sec, id, w);
        assert(t[0] == s[0]);
    }
    assert forall|s2: i64, id2: u64| !(s2 == sec && id2 == id) implies ps_get(t, s2, id2)
        == ps_get(s, s2, id2) by {
        if i == 0 {
            assert(ps_get(t, s2, id2) == ps_get(t.drop_first(), s2, id2));
            assert(ps_get(s, s2, id2) == ps_get(s.drop_first(), s2, id2));
        } else if s[0].0 == s2 && s[0].1 == id2 {
            assert(ps_get(t, s2, id2) == Some(t[0].2));
            assert(ps_get(s, s2, id2) == Some(s[0].2));
        } else {
            assert(ps_get(s.drop_first().update(i - 1, (sec, id, w)), s2, id2) == ps_get(
                s.drop_first(),
                s2,
                id2,
            ));
            assert(ps_get(t, s2, id2) == ps_get(t.drop_first(), s2, id2));
            assert(ps_get(s, s2, id2) == ps_get(s.drop_first(), s2, id2));
        }
    }
    assert forall|id2: u64| id2 != id implies sum_for(t, id2) == sum_for(s, id2) by {
        if i > 0 {
            assert(sum_for(s.drop_first().update(i - 1, (sec, id, w)), id2) == sum_for(
                s.drop_first(),
                id2,
            ));
        }
    }
}

pub proof fn lemma_ps_push(s: Seq<(i64, u64, u64)>, sec: i64, id: u64, w: u64)
    requires
        ps_distinct(s),
        ps_get(s, sec, id) is None,
    ensures
        ps_distinct(s.push((sec, id, w))),
        ps_get(s.push((sec, id, w)), sec, id) == Some(w),
        forall|s2: i64, id2: u64| !(s2 == sec && id2 == id)
            ==> ps_get(s.push((sec, id, w)), s2, id2) == ps_get(s, s2, id2),
        sum_for(s.push((sec, id, w)), id) == sum_for(s, id) + w,
        forall|id2: u64| id2 != id ==> sum_for(s.push((sec, id, w)), id2) == sum_for(s, id2),
        ps_idx(s.push((sec, id, w)), sec, id) == s.len(),
        ps_min_one(s) && w >= 1 ==> ps_min_one(s.push((sec, id, w))),
    decreases s.len(),
{
    let t = s.push((sec, id, w));
    lemma_ps_get_none_no_match(s, sec, id);
    if s.len() == 0 {
        assert(t.drop_first() =~= Seq::<(i64, u64, u64)>::empty());
        assert(sum_for(t, id) == t[0].2 + sum_for(t.drop_first(), id));
    } else {
        assert(t.drop_first() =~= s.drop_first().push((sec, id, w)));
        lemma_ps_push(s.drop_first(), sec, id, w);
        assert(t[0] == s[0]);
    }
    assert forall|s2: i64, id2: u64| !(s2 == sec && id2 == id) implies ps_get(t, s2, id2)
        == ps_get(s, s2, id2) by {
        if s.len() == 0 {
            assert(ps_get(t, s2, id2) == ps_get(t.drop_first(), s2, id2));
            assert(ps_get(t.drop_first(), s2, id2) is None);
        } else if s[0].0 == s2 && s[0].1 == id2 {
            assert(ps_get(t, s2, id2) == Some(t[0].2));
            assert(ps_get(s, s2, id2) == Some(s[0].2));
        } else {
            assert(ps_get(s.drop_first().push((sec, id, w)), s2, id2) == ps_get(
                s.drop_first(),
                s2,
                id2,
            ));
            assert(ps_get(t, s2, id2) == ps_get(t.drop_first(), s2, id2));
            assert(ps_get(s, s2, id2) == ps_get(s.drop_first(), s2, id2));
        }
    }
    assert forall|id2: u64| id2 != id implies sum_for(t, id2) == sum_for(s, id2) by {
        if s.len() == 0 {
            assert(sum_for(t, id2) == 0 + sum_for(t.drop_first(), id2));
            assert(sum_for(t.drop_first(), id2) == 0);
        } else {
            assert(sum_for(s.drop_first().push((sec, id, w)), id2) == sum_for(
                s.drop_first(),
                id2,
            ));
            assert(sum_for(t, id2) == (if t[0].1 == id2 {
                t[0].2 as int
            } else {
                0
            }) + sum_for(t.drop_first(), id2));
            assert(sum_for(s, id2) == (if s[0].1 == id2 {
                s[0].2 as int
            } else {
                0
            }) + sum_for(s.drop_first(), id2));
        }
    }
}

pub proof fn lemma_ps_remove(s: Seq<(i64, u64, u64)>, i: int, sec: i64, id: u64)
    requires
        ps_distinct(s),
        0 <= i < s.len(),
        s[i].0 == sec && s[i].1 == id,
        i == ps_idx(s, sec, id),
    ensures
        ps_distinct(s.remove(i)),
        ps_get(s.remove(i), sec, id) is None,
        forall|s2: i64, id2: u64| !(s2 == sec && id2 == id)
            ==> ps_get(s.remove(i), s2, id2) == ps_get(s, s2, id2),
        sum_for(s.remove(i), id) == sum_for(s, id) - s[i].2,
        forall|id2: u64| id2 != id ==> sum_for(s.remove(i), id2) == sum_for(s, id2),
        ps_min_one(s) ==> ps_min_one(s.remove(i)),
    decreases s.len(),
{
    let t = s.remove(i);
    assert(forall|j: int| 0 <= j < i ==> t[j] == s[j]);
    assert(forall|j: int| i <= j < t.len() ==> t[j] == s[j + 1]);
    if i == 0 {
        assert(t =~= s.drop_first());
        assert(forall|j: int| #![trigger s.drop_first()[j]]
            0 <= j < s.drop_first().len() ==> s.drop_first()[j] == s[j + 1]);
        lemma_ps_no_match(s.drop_first(), sec, id);
    } else {
        assert(t.drop_first() =~= s.drop_first().remove(i - 1));
        lemma_ps_remove(s.drop_first(), i - 1, sec, id);
        assert(t[0] == s[0]);
    }
    assert forall|s2: i64, id2: u64| !(s2 == sec && id2 == id) implies ps_get(t, s2, id2)
        == ps_get(s, s2, id2) by {
        if i == 0 {
            assert(ps_get(s, s2, id2) == ps_get(s.drop_first(), s2, id2));
        } else if s[0].0 == s2 && s[0].1 == id2 {
            assert(ps_get(t, s2, id2) == Some(t[0].2));
            assert(ps_get(s, s2, id2) == Some(s[0].2));
        } else {
            assert(ps_get(s.drop_first().remove(i - 1), s2, id2) == ps_get(
                s.drop_first(),
                s2,
                id2,
            ));
            assert(ps_get(t, s2, id2) == ps_get(t.drop_first(), s2, id2));
            assert(ps_get(s, s2, id2) == ps_get(s.drop_first(), s2, id2));
        }
    }
    assert forall|id2: u64| id2 != id implies sum_for(t, id2) == sum_for(s, id2) by {
        if i > 0 {
            assert(sum_for(s.drop_first().remove(i - 1), id2) == sum_for(s.drop_first(), id2));
        }
    }
}

/// A per-second count never exceeds the message's total across seconds.
pub proof fn lemma_ps_val_le_sum(s: Seq<(i64, u64, u64)>, sec: i64, id: u64)
    requires
        ps_get(s, sec, id) is Some,
    ensures
        ps_get(s, sec, id).unwrap() <= sum_for(s, id),
        sum_for(s, id) >= 0,
    decreases s.len(),
{
    lemma_sum_for_nonneg(s, id);
    if s.len() > 0 && !(s[0].0 == sec && s[0].1 == id) {
        lemma_ps_val_le_sum(s.drop_first(), sec, id);
    } else if s.len() > 0 {
        lemma_sum_for_nonneg(s.drop_first(), id);
    }
}

pub proof fn lemma_sum_for_nonneg(s: Seq<(i64, u64, u64)>, id: u64)
    ensures
        sum_for(s, id) >= 0,
    decreases s.len(),
{
    if s.len() > 0 {
        lemma_sum_for_nonneg(s.drop_first(), id);
    }
}

/// First index holding the pair `(sec, id)`, or `None` when it is absent.
pub fn ps_find(v: &Vec<(i64, u64, u64)>, sec: i64, id: u64) -> (r: Option<usize>)
    ensures
        match r {
            Some(i) => i < v@.len() && v@[i as int].0 == sec && v@[i as int].1 == id
                && i as int == ps_idx(v@, sec, id)
                && ps_get(v@, sec, id) == Some(v@[i as int].2),
            None => ps_get(v@, sec, id) is None,
        },
{
    let mut i: usize = 0;
    while i < v.len()
        invariant
            i <= v@.len(),
            forall|j: int| #![trigger v@[j]] 0 <= j < i ==> !(v@[j].0 == sec && v@[j].1 == id),
        decreases v@.len() - i,
    {
        if v[i].0 == sec && v[i].1 == id {
            proof {
                lemma_ps_first_match(v@, sec, id, i as int);
            }
            return Some(i);
        }
        i = i + 1;
    }
    proof {
        lemma_ps_no_match(v@, sec, id);
    }
    None
}

/// Add one to the count under `(sec, id)`, inserting a fresh entry at one
/// when the pair is absent.
pub fn ps_bump(v: &mut Vec<(i64, u64, u64)>, sec: i64, id: u64)
    requires
        ps_distinct(old(v)@),
        ps_min_one(old(v)@),
        ps_val(old(v)@, sec, id) < u64::MAX,
    ensures
        ps_distinct(final(v)@),
        ps_min_one(final(v)@),
        ps_get(final(v)@, sec, id) == Some((ps_val(old(v)@, sec, id) + 1) as u64),
        forall|s2: i64, id2: u64| !(s2 == sec && id2 == id)
            ==> ps_get(final(v)@, s2, id2) == ps_get(old(v)@, s2, id2),
        sum_for(final(v)@, id) == sum_for(old(v)@, id) + 1,
        forall|id2: u64| id2 != id ==> sum_for(final(v)@, id2) == sum_for(old(v)@, id2),
        ps_get(old(v)@, sec, id) is Some ==> final(v)@ == old(v)@.update(
            ps_idx(old(v)@, sec, id),
            (sec, id, (ps_val(old(v)@, sec, id) + 1) as u64),
        ),
        ps_get(old(v)@, sec, id) is None ==> final(v)@ == old(v)@.push((sec, id, 1u64)),
{
    match ps_find(v, sec, id) {
        Some(i) => {
            let w = v[i].2;
            v.set(i, (sec, id, w + 1));
            proof {
                lemma_ps_update(old(v)@, i as int, sec, id, (w + 1) as u64);
            }
        },
        None => {
            v.push((sec, id, 1));
            proof {
                lemma_ps_push(old(v)@, sec, id, 1u64);
            }
        },
    }
}

/// Take one from the count under `(sec, id)`, removing the entry when it
/// reaches zero.
pub fn ps_drop(v: &mut Vec<(i64, u64, u64)>, sec: i64, id: u64)
    requires
        ps_distinct(old(v)@),
        ps_min_one(old(v)@),
        ps_get(old(v)@, sec, id) is Some,
    ensures
        ps_distinct(final(v)@),
        ps_min_one(final(v)@),
        ps_get(final(v)@, sec, id) == (if ps_val(old(v)@, sec, id) > 1 {
            Some((ps_val(old(v)@, sec, id) - 1) as u64)
        } else {
            None::<u64>
        }),
        forall|s2: i64, id2: u64| !(s2 == sec && id2 == id)
            ==> ps_get(final(v)@, s2, id2) == ps_get(old(v)@, s2, id2),
        sum_for(final(v)@, id) == sum_for(old(v)@, id) - 1,
        forall|id2: u64| id2 != id ==> sum_for(final(v)@, id2) == sum_for(old(v)@, id2),
        ps_val(old(v)@, sec, id) > 1 ==> final(v)@ == old(v)@.update(
            ps_idx(old(v)@, sec, id),
            (sec, id, (ps_val(old(v)@, sec, id) - 1) as u64),
        ),
        ps_val(old(v)@, sec, id) == 1 ==> final(v)@ == old(v)@.remove(ps_idx(old(v)@, sec, id)),
{
    match ps_find(v, sec, id) {
        Some(i) => {
            let w = v[i].2;
            if w > 1 {
                v.set(i, (sec, id, w - 1));
                proof {
                    lemma_ps_update(old(v)@, i as int, sec, id, (w - 1) as u64);
                }
            } else {
                v.remove(i);
                proof {
                    lemma_ps_remove(old(v)@, i as int, sec, id);
                }
            }
        },
        None => {
            proof {
                assert(false);
            }
        },
    }
}

/// First index holding key `id`, or `None` when the key is absent.
pub fn k_find(v: &Vec<(u64, u64)>, id: u64) -> (r: Option<usize>)
    ensures
        match r {
            Some(i) => i < v@.len() && v@[i as int].0 == id && i as int == idx_of(v@, id)
                && k_get(v@, id) == Some(v@[i as int].1),
            None => k_get(v@, id) is None,
        },
{
    let mut i: usize = 0;
    while i < v.len()
        invariant
            i <= v@.len(),
            forall|j: int| #![trigger v@[j]] 0 <= j < i ==> v@[j].0 != id,
        decreases v@.len() - i,
    {
        if v[i].0 == id {
            proof {
                lemma_first_match(v@, id, i as int);
            }
            return Some(i);
        }
        i = i + 1;
    }
    proof {
        lemma_no_match(v@, id);
    }
    None
}

/// Add one to the count under `id`, inserting a fresh entry at one when the
/// key is absent.
pub fn k_bump(v: &mut Vec<(u64, u64)>, id: u64)
    requires
        keys_distinct(old(v)@),
        vals_min_one(old(v)@),
        k_val(old(v)@, id) < u64::MAX,
    ensures
        keys_distinct(final(v)@),
        vals_min_one(final(v)@),
        k_get(final(v)@, id) == Some((k_val(old(v)@, id) + 1) as u64),
        forall|id2: u64| id2 != id ==> k_get(final(v)@, id2) == k_get(old(v)@, id2),
        sum_vals(final(v)@) == sum_vals(old(v)@) + 1,
        k_get(old(v)@, id) is Some ==> final(v)@ == old(v)@.update(
            idx_of(old(v)@, id),
            (id, (k_val(old(v)@, id) + 1) as u64),
        ),
        k_get(old(v)@, id) is None ==> final(v)@ == old(v)@.push((id, 1u64)),
{
    match k_find(v, id) {
        Some(i) => {
            let w = v[i].1;
            v.set(i, (id, w + 1));
            proof {
                lemma_update(old(v)@, i as int, id, (w + 1) as u64);
            }
        },
        None => {
            v.push((id, 1));
            proof {
                lemma_push(old(v)@, id, 1u64);
            }
        },
    }
}

/// Take one from the count under `id`, removing the entry when it reaches
/// zero.
pub fn k_drop(v: &mut Vec<(u64, u64)>, id: u64)
    requires
        keys_distinct(old(v)@),
        vals_min_one(old(v)@),
        k_get(old(v)@, id) is Some,
    ensures
        keys_distinct(final(v)@),
        vals_min_one(final(v)@),
        k_get(final(v)@, id) == (if k_val(old(v)@, id) > 1 {
            Some((k_val(old(v)@, id) - 1) as u64)
        } else {
            None::<u64>
        }),
        forall|id2: u64| id2 != id ==> k_get(final(v)@, id2) == k_get(old(v)@, id2),
        sum_vals(final(v)@) == sum_vals(old(v)@) - 1,
        k_val(old(v)@, id) > 1 ==> final(v)@ == old(v)@.update(
            idx_of(old(v)@, id),
            (id, (k_val(old(v)@, id) - 1) as u64),
        ),
        k_val(old(v)@, id) == 1 ==> final(v)@ == old(v)@.remove(idx_of(old(v)@, id)),
{
    match k_find(v, id) {
        Some(i) => {
            let w = v[i].1;
            if w > 1 {
                v.set(i, (id, w - 1));
                proof {
                    lemma_update(old(v)@, i as int, id, (w - 1) as u64);
                }
            } else {
                v.remove(i);
                proof {
                    lemma_remove(old(v)@, i as int, id);
                }
            }
        },
        None => {
            proof {
                assert(false);
            }
        },
    }
}

} // verus!
