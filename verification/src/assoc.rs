//! A lookup table keyed by commit id.
//!
//! The table is an association list with pairwise distinct keys, modelled as
//! a `Map` from the key's bytes to the value's view.  Insertion keeps the
//! first binding of a key: a later insert of the same key is a no-op.

use vstd::prelude::*;

use crate::ids::CommitId;

verus! {

/// A lookup table from commit ids to values, with unique keys.
pub struct IdMap<V> {
    pairs: Vec<(CommitId, V)>,
}

/// The map encoded by an association list; later pairs shadow earlier ones,
/// though a well-formed `IdMap` never holds a key twice.
pub open spec fn map_of<V: View>(pairs: Seq<(CommitId, V)>) -> Map<Seq<u8>, V::V>
    decreases pairs.len(),
{
    if pairs.len() == 0 {
        Map::empty()
    } else {
        map_of(pairs.drop_last()).insert(pairs.last().0@, pairs.last().1@)
    }
}

proof fn lemma_map_of_contains<V: View>(pairs: Seq<(CommitId, V)>, k: Seq<u8>)
    ensures
        map_of(pairs).contains_key(k) <==> exists|i: int|
            0 <= i < pairs.len() && pairs[i].0@ == k,
    decreases pairs.len(),
{
    if pairs.len() == 0 {
    } else {
        lemma_map_of_contains(pairs.drop_last(), k);
        if pairs.last().0@ == k {
            assert(pairs[pairs.len() - 1].0@ == k);
        } else {
            if map_of(pairs).contains_key(k) {
                let i = choose|i: int| 0 <= i < pairs.drop_last().len() && pairs.drop_last()[i].0@ == k;
                assert(pairs[i].0@ == k);
            }
            if exists|i: int| 0 <= i < pairs.len() && pairs[i].0@ == k {
                let i = choose|i: int| 0 <= i < pairs.len() && pairs[i].0@ == k;
                assert(pairs.drop_last()[i].0@ == k);
            }
        }
    }
}

proof fn lemma_map_of_get<V: View>(pairs: Seq<(CommitId, V)>, i: int)
    requires
        0 <= i < pairs.len(),
        forall|a: int, b: int|
            0 <= a < pairs.len() && 0 <= b < pairs.len() && a != b ==> (#[trigger] pairs[a].0@)
                != (#[trigger] pairs[b].0@),
    ensures
        map_of(pairs).contains_key(pairs[i].0@),
        map_of(pairs)[pairs[i].0@] == pairs[i].1@,
    decreases pairs.len(),
{
    if i == pairs.len() - 1 {
    } else {
        lemma_map_of_get(pairs.drop_last(), i);
        assert(pairs.drop_last()[i] == pairs[i]);
        assert(pairs.last().0@ != pairs[i].0@);
    }
}

proof fn lemma_map_of_len<V: View>(pairs: Seq<(CommitId, V)>)
    requires
        forall|a: int, b: int|
            0 <= a < pairs.len() && 0 <= b < pairs.len() && a != b ==> (#[trigger] pairs[a].0@)
                != (#[trigger] pairs[b].0@),
    ensures
        map_of(pairs).dom().finite(),
        map_of(pairs).dom().len() == pairs.len(),
    decreases pairs.len(),
{
    if pairs.len() == 0 {
        assert(map_of(pairs).dom() =~= Set::<Seq<u8>>::empty());
    } else {
        lemma_map_of_len(pairs.drop_last());
        lemma_map_of_contains(pairs.drop_last(), pairs.last().0@);
        assert(!map_of(pairs.drop_last()).contains_key(pairs.last().0@));
        assert(map_of(pairs).dom() =~= map_of(pairs.drop_last()).dom().insert(pairs.last().0@));
    }
}

impl<V: View> IdMap<V> {
    /// The map this table holds.
    pub closed spec fn view_map(&self) -> Map<Seq<u8>, V::V> {
        map_of(self.pairs@)
    }

    /// Well-formedness: no key occurs twice.
    pub closed spec fn wf(&self) -> bool {
        forall|a: int, b: int|
            0 <= a < self.pairs@.len() && 0 <= b < self.pairs@.len() && a != b ==> (
            #[trigger] self.pairs@[a].0@) != (#[trigger] self.pairs@[b].0@)
    }

    /// An empty table.
    pub fn new() -> (r: Self)
        ensures
            r.wf(),
            r.view_map() == Map::<Seq<u8>, V::V>::empty(),
    {
        IdMap { pairs: Vec::new() }
    }

    /// How many keys the table holds.
    pub fn len(&self) -> (r: usize)
        requires
            self.wf(),
        ensures
            r as nat == self.view_map().dom().len(),
    {
        proof {
            lemma_map_of_len(self.pairs@);
        }
        self.pairs.len()
    }

    /// Looks a key up; absence is a normal outcome, not an error.
    pub fn get<'a>(&'a self, key: &CommitId) -> (r: Option<&'a V>)
        requires
            self.wf(),
        ensures
            r is Some <==> self.view_map().contains_key(key@),
            r is Some ==> r->0@ == self.view_map()[key@],
    {
        let mut i: usize = 0;
        while i < self.pairs.len()
            invariant
                self.wf(),
                i <= self.pairs@.len(),
                forall|j: int| 0 <= j < i ==> (#[trigger] self.pairs@[j].0@) != key@,
            decreases self.pairs@.len() - i,
        {
            if self.pairs[i].0.same_as(key) {
                proof {
                    lemma_map_of_get(self.pairs@, i as int);
                }
                return Some(&self.pairs[i].1);
            }
            i += 1;
        }
        proof {
            lemma_map_of_contains(self.pairs@, key@);
        }
        None
    }

    /// Binds `key` to `value` unless the key is already bound; the first
    /// binding of a key always wins.
    pub fn try_insert(&mut self, key: CommitId, value: V)
        requires
            old(self).wf(),
        ensures
            final(self).wf(),
            final(self).view_map() == if old(self).view_map().contains_key(key@) {
                old(self).view_map()
            } else {
                old(self).view_map().insert(key@, value@)
            },
    {
        let present = match self.get(&key) {
            Some(_) => true,
            None => false,
        };
        if !present {
            proof {
                lemma_map_of_contains(self.pairs@, key@);
            }
            self.pairs.push((key, value));
            proof {
                assert(self.pairs@.drop_last() =~= old(self).pairs@);
            }
        }
    }
}

} // verus!
