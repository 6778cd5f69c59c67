//! A sparse association from cell coordinates to values, modelled as a
//! mathematical map.  It backs the battlefield grid's cell store and the
//! index from coordinates to the units standing on them.
use vstd::prelude::*;
use crate::coords::CellCoord;
use crate::coords::GridCoord;

verus! {

/// Sparse coordinate-keyed store; unset coordinates are simply absent.
pub struct CoordMap<V> {
    pub entries: Vec<(CellCoord, V)>,
}

/// The mapping a sequence of entries stands for.  A later entry overrides an
/// earlier one with the same key; with unique keys the order is irrelevant.
pub open spec fn map_of<V>(s: Seq<(CellCoord, V)>) -> Map<GridCoord, V>
    decreases s.len(),
{
    if s.len() == 0 {
        Map::empty()
    } else {
        map_of(s.drop_last()).insert(s.last().0@, s.last().1)
    }
}

/// No two entries share a key.
pub open spec fn unique_keys<V>(s: Seq<(CellCoord, V)>) -> bool {
    forall|i: int, j: int| 0 <= i < j < s.len() ==> s[i].0@ != s[j].0@
}

impl<V> View for CoordMap<V> {
    type V = Map<GridCoord, V>;

    open spec fn view(&self) -> Map<GridCoord, V> {
        map_of(self.entries@)
    }
}

/// A key is in the map exactly when some entry carries it.
pub proof fn lemma_map_of_domain<V>(s: Seq<(CellCoord, V)>)
    ensures
        forall|c: GridCoord|
            #[trigger] map_of(s).contains_key(c) <==> exists|i: int|
                0 <= i < s.len() && (#[trigger] s[i]).0@ == c,
    decreases s.len(),
{
    if s.len() > 0 {
        lemma_map_of_domain(s.drop_last());
        assert forall|c: GridCoord|
            (exists|i: int| 0 <= i < s.len() && (#[trigger] s[i]).0@ == c) implies #[trigger] map_of(
            s,
        ).contains_key(c) by {
            let i = choose|i: int| 0 <= i < s.len() && (#[trigger] s[i]).0@ == c;
            if i < s.len() - 1 {
                assert(s.drop_last()[i] == s[i]);
                assert(map_of(s.drop_last()).contains_key(c));
            }
        }
        assert forall|c: GridCoord| #[trigger] map_of(s).contains_key(c) implies exists|i: int|
            0 <= i < s.len() && (#[trigger] s[i]).0@ == c by {
            if c != s.last().0@ {
                assert(map_of(s.drop_last()).contains_key(c));
                let i = choose|i: int|
                    0 <= i < s.drop_last().len() && (#[trigger] s.drop_last()[i]).0@ == c;
                assert(s[i] == s.drop_last()[i]);
            } else {
                assert((s[s.len() - 1]).0@ == c);
            }
        }
    }
}

/// With unique keys, each entry gives the map's value at its key.
pub proof fn lemma_map_of_index<V>(s: Seq<(CellCoord, V)>)
    requires
        unique_keys(s),
    ensures
        forall|i: int|
            0 <= i < s.len() ==> map_of(s).contains_key((#[trigger] s[i]).0@) && map_of(s)[s[i].0@]
                == s[i].1,
    decreases s.len(),
{
    if s.len() > 0 {
        assert(unique_keys(s.drop_last())) by {
            assert(forall|i: int|
                0 <= i < s.drop_last().len() ==> s.drop_last()[i] == (#[trigger] s[i]));
        }
        lemma_map_of_index(s.drop_last());
        assert forall|i: int| 0 <= i < s.len() implies map_of(s).contains_key(
            (#[trigger] s[i]).0@,
        ) && map_of(s)[s[i].0@] == s[i].1 by {
            if i < s.len() - 1 {
                assert(s.drop_last()[i] == s[i]);
                assert(s[i].0@ != s.last().0@);
            }
        }
    }
}

/// Removing the entry that carries a key removes the key from the map.
pub proof fn lemma_map_of_remove<V>(s: Seq<(CellCoord, V)>, i: int)
    requires
        unique_keys(s),
        0 <= i < s.len(),
    ensures
        map_of(s.remove(i)) == map_of(s).remove(s[i].0@),
    decreases s.len(),
{
    if i == s.len() - 1 {
        assert(s.remove(i) =~= s.drop_last());
        lemma_map_of_domain(s.drop_last());
        assert(forall|j: int|
            0 <= j < s.drop_last().len() ==> (#[trigger] s.drop_last()[j]).0@ != s[i].0@);
        assert(!map_of(s.drop_last()).contains_key(s[i].0@));
        assert(map_of(s.drop_last()).insert(s.last().0@, s.last().1).remove(s[i].0@) =~= map_of(
            s.drop_last(),
        ));
    } else {
        assert(unique_keys(s.drop_last())) by {
            assert(forall|j: int|
                0 <= j < s.drop_last().len() ==> s.drop_last()[j] == (#[trigger] s[j]));
        }
        lemma_map_of_remove(s.drop_last(), i);
        assert(s.remove(i).drop_last() =~= s.drop_last().remove(i));
        assert(s.remove(i).last() == s.last());
        assert(map_of(s.remove(i)) == map_of(s.drop_last()).remove(s[i].0@).insert(
            s.last().0@,
            s.last().1,
        ));
        assert(s[i].0@ != s.last().0@);
        assert(map_of(s.drop_last()).remove(s[i].0@).insert(s.last().0@, s.last().1) =~= map_of(
            s.drop_last(),
        ).insert(s.last().0@, s.last().1).remove(s[i].0@));
    }
}

impl<V> CoordMap<V> {
    /// Entries carry pairwise distinct coordinates.
    pub open spec fn wf(&self) -> bool {
        unique_keys(self.entries@)
    }

    pub fn new() -> (r: CoordMap<V>)
        ensures
            r.wf(),
            r@ == Map::<GridCoord, V>::empty(),
    {
        CoordMap { entries: Vec::new() }
    }

    /// Index of the entry that carries `coord`, if any.
    fn find(&self, coord: CellCoord) -> (r: Option<usize>)
        ensures
            match r {
                Some(i) => i < self.entries@.len() && self.entries@[i as int].0@ == coord@,
                None => forall|i: int|
                    0 <= i < self.entries@.len() ==> (#[trigger] self.entries@[i]).0@ != coord@,
            },
    {
        let mut i: usize = 0;
        while i < self.entries.len()
            invariant
                i <= self.entries@.len(),
                forall|j: int| 0 <= j < i ==> (#[trigger] self.entries@[j]).0@ != coord@,
            decreases self.entries@.len() - i,
        {
            if self.entries[i].0 == coord {
                return Some(i);
            }
            i = i + 1;
        }
        None
    }

    /// The value stored at `coord`, or `None` where the coordinate is unset.
    pub fn get(&self, coord: CellCoord) -> (r: Option<&V>)
        requires
            self.wf(),
        ensures
            match r {
                Some(v) => self@.contains_key(coord@) && *v == self@[coord@],
                None => !self@.contains_key(coord@),
            },
    {
        proof {
            lemma_map_of_domain(self.entries@);
            lemma_map_of_index(self.entries@);
        }
        match self.find(coord) {
            Some(i) => Some(&self.entries[i].1),
            None => None,
        }
    }

    /// Stores `value` at `coord`, overwriting whatever was there.
    pub fn insert(&mut self, coord: CellCoord, value: V)
        requires
            old(self).wf(),
        ensures
            final(self).wf(),
            final(self)@ == old(self)@.insert(coord@, value),
    {
        match self.find(coord) {
            Some(i) => {
                proof {
                    lemma_map_of_remove(self.entries@, i as int);
                }
                self.entries.remove(i);
            },
            None => {},
        }
        proof {
            lemma_map_of_domain(self.entries@);
        }
        let ghost pre = self.entries@;
        self.entries.push((coord, value));
        proof {
            assert(self.entries@.drop_last() =~= pre);
            assert(forall|j: int| 0 <= j < pre.len() ==> (#[trigger] pre[j]).0@ != coord@);
            assert(forall|j: int|
                0 <= j < pre.len() ==> (#[trigger] self.entries@[j]) == pre[j]);
            assert(map_of(pre) =~= old(self)@.remove(coord@));
            assert(map_of(pre).insert(coord@, value) =~= old(self)@.insert(coord@, value));
        }
    }

    /// Unsets `coord`; a no-op where it was not set.
    pub fn remove(&mut self, coord: CellCoord)
        requires
            old(self).wf(),
        ensures
            final(self).wf(),
            final(self)@ == old(self)@.remove(coord@),
    {
        match self.find(coord) {
            Some(i) => {
                proof {
                    lemma_map_of_remove(self.entries@, i as int);
                }
                self.entries.remove(i);
            },
            None => {
                proof {
                    lemma_map_of_domain(self.entries@);
                    assert(!map_of(self.entries@).contains_key(coord@));
                    assert(map_of(self.entries@).remove(coord@) =~= map_of(self.entries@));
                }
            },
        }
    }
}

} // verus!
