//! The message interner: stable small ids for distinct message texts. Ids
//! are indices into an append-only vector, so an id, once handed out, names
//! the same text for the life of the process.

use vstd::prelude::*;

verus! {

/// Append-only store of distinct message texts; the id of a text is its
/// index.
pub struct MessageInterner {
    pub msgs: Vec<String>,
}

/// The texts held, as character sequences.
pub open spec fn texts(it: &MessageInterner) -> Seq<Seq<char>> {
    it.msgs@.map_values(|m: String| m@)
}

/// No text is stored twice.
pub open spec fn texts_distinct(s: Seq<Seq<char>>) -> bool {
    forall|i: int, j: int| #![trigger s[i], s[j]] 0 <= i < j < s.len() ==> s[i] != s[j]
}

/// Whether some stored text equals `t`.
pub open spec fn has_text(s: Seq<Seq<char>>, t: Seq<char>) -> bool {
    exists|i: int| 0 <= i < s.len() && s[i] == t
}

/// Index of the first stored text equal to `t`; the length if there is
/// none.
pub open spec fn id_of(s: Seq<Seq<char>>, t: Seq<char>) -> int
    decreases s.len(),
{
    if s.len() == 0 {
        0
    } else if s[0] == t {
        0
    } else {
        1 + id_of(s.drop_first(), t)
    }
}

proof fn lemma_id_first_match(s: Seq<Seq<char>>, t: Seq<char>, i: int)
    requires
        0 <= i < s.len(),
        forall|j: int| #![trigger s[j]] 0 <= j < i ==> s[j] != t,
        s[i] == t,
    ensures
        id_of(s, t) == i,
    decreases s.len(),
{
    if i > 0 {
        lemma_id_first_match(s.drop_first(), t, i - 1);
    }
}

proof fn lemma_id_no_match(s: Seq<Seq<char>>, t: Seq<char>)
    requires
        forall|j: int| #![trigger s[j]] 0 <= j < s.len() ==> s[j] != t,
    ensures
        id_of(s, t) == s.len(),
    decreases s.len(),
{
    if s.len() > 0 {
        lemma_id_no_match(s.drop_first(), t);
    }
}

/// A present text resolves to an in-range index holding it.
pub proof fn lemma_id_of_present(s: Seq<Seq<char>>, t: Seq<char>)
    requires
        has_text(s, t),
    ensures
        0 <= id_of(s, t) < s.len(),
        s[id_of(s, t)] == t,
    decreases s.len(),
{
    if s.len() > 0 && s[0] != t {
        let i = choose|i: int| 0 <= i < s.len() && s[i] == t;
        assert(s.drop_first()[i - 1] == t);
        lemma_id_of_present(s.drop_first(), t);
    }
}

/// Once a text is stored, growing the store never changes its id: the
/// id an intern returned stays good for the life of the interner.
pub proof fn lemma_intern_stable(s1: Seq<Seq<char>>, s2: Seq<Seq<char>>, t: Seq<char>)
    requires
        s1.is_prefix_of(s2),
        has_text(s1, t),
    ensures
        has_text(s2, t),
        id_of(s2, t) == id_of(s1, t),
    decreases s1.len(),
{
    lemma_id_of_present(s1, t);
    assert(s2[id_of(s1, t)] == t);
    if s1[0] == t {
    } else {
        let i = choose|i: int| 0 <= i < s1.len() && s1[i] == t;
        assert(s1.drop_first()[i - 1] == t);
        assert(s1.drop_first().is_prefix_of(s2.drop_first()));
        lemma_intern_stable(s1.drop_first(), s2.drop_first(), t);
    }
}

/// Distinct texts never share an id.
pub proof fn lemma_distinct_ids(s: Seq<Seq<char>>, t1: Seq<char>, t2: Seq<char>)
    requires
        has_text(s, t1),
        has_text(s, t2),
        t1 != t2,
    ensures
        id_of(s, t1) != id_of(s, t2),
{
    lemma_id_of_present(s, t1);
    lemma_id_of_present(s, t2);
}

impl MessageInterner {
    pub fn new() -> (it: MessageInterner)
        ensures
            texts(&it).len() == 0,
            texts_distinct(texts(&it)),
    {
        let it = MessageInterner { msgs: Vec::new() };
        proof {
            assert(texts(&it) =~= Seq::<Seq<char>>::empty());
        }
        it
    }

    /// The id for a message text: the one it already has, or the next
    /// index, with the text appended.
    pub fn intern(&mut self, msg: String) -> (id: u64)
        requires
            texts_distinct(texts(old(self))),
        ensures
            texts_distinct(texts(final(self))),
            has_text(texts(old(self)), msg@) ==> texts(final(self)) == texts(old(self)),
            !has_text(texts(old(self)), msg@) ==> texts(final(self)) == texts(old(self)).push(
                msg@,
            ),
            id as int == id_of(texts(old(self)), msg@),
            id < texts(final(self)).len(),
            texts(final(self))[id as int] == msg@,
    {
        let ghost s0 = texts(old(self));
        let mut i: usize = 0;
        while i < self.msgs.len()
            invariant
                self == old(self),
                texts_distinct(texts(self)),
                i <= self.msgs@.len(),
                forall|j: int| #![trigger texts(self)[j]] 0 <= j < i ==> texts(self)[j] != msg@,
            decreases self.msgs@.len() - i,
        {
            if self.msgs[i].eq(&msg) {
                proof {
                    assert(texts(self)[i as int] == msg@);
                    lemma_id_first_match(texts(self), msg@, i as int);
                }
                return i as u64;
            }
            proof {
                assert(texts(self)[i as int] == self.msgs@[i as int]@);
            }
            i = i + 1;
        }
        proof {
            lemma_id_no_match(texts(self), msg@);
            assert(!has_text(texts(self), msg@));
        }
        let id = self.msgs.len() as u64;
        self.msgs.push(msg);
        proof {
            assert(texts(self) =~= s0.push(msg@));
            assert forall|a: int, b: int| #![trigger texts(self)[a], texts(self)[b]]
                0 <= a < b < texts(self).len() implies texts(self)[a] != texts(self)[b] by {
                if b < s0.len() {
                } else {
                    assert(texts(self)[b] == msg@);
                    assert(texts(self)[a] == s0[a]);
                }
            }
        }
        id
    }

    /// The text behind an id, or the fallback text for an id never handed
    /// out; the fallback is a reporting convenience, not an error.
    pub fn lookup(&self, id: u64) -> (r: String)
        ensures
            id < texts(self).len() ==> r@ == texts(self)[id as int],
            id >= texts(self).len() ==> r@ == "N/A"@,
    {
        if id < self.msgs.len() as u64 {
            let r = self.msgs[id as usize].clone();
            proof {
                assert(texts(self)[id as int] == self.msgs@[id as int]@);
            }
            r
        } else {
            "N/A".to_owned()
        }
    }
}

} // verus!
