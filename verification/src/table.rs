//! A string-keyed association table with an exact `Map` view, used for
//! artifact maps and run results in place of an unordered hash map.

use vstd::prelude::*;

verus! {

/// The map described by a sequence of key/value entries: entries are
/// folded left to right, so a later entry for a key overrides an earlier
/// one.
pub open spec fn table_map<V: View>(s: Seq<(String, V)>) -> Map<Seq<char>, V::V>
    decreases s.len(),
{
    if s.len() == 0 {
        Map::empty()
    } else {
        table_map(s.drop_last()).insert(s.last().0@, s.last().1@)
    }
}

/// A table from string keys to values, viewed as a `Map` from key views
/// to value views. Inserting for a key that is already present overrides
/// the earlier value.
pub struct Table<V> {
    entries: Vec<(String, V)>,
}

impl<V: View> View for Table<V> {
    type V = Map<Seq<char>, V::V>;

    closed spec fn view(&self) -> Map<Seq<char>, V::V> {
        table_map(self.entries@)
    }
}

impl<V: View> Table<V> {
    /// An empty table.
    pub fn new() -> (r: Self)
        ensures
            r@ == Map::<Seq<char>, V::V>::empty(),
    {
        Table { entries: Vec::new() }
    }

    /// Bind `k` to `v`, overriding any earlier binding of `k`.
    pub fn insert(&mut self, k: String, v: V)
        ensures
            final(self)@ == old(self)@.insert(k@, v@),
    {
        self.entries.push((k, v));
        proof {
            assert(self.entries@.drop_last() =~= old(self).entries@);
        }
    }

    /// Look the binding of `k` up.
    pub fn get(&self, k: &String) -> (r: Option<&V>)
        ensures
            match r {
                Some(v) => self@.contains_key(k@) && v@ == self@[k@],
                None => !self@.contains_key(k@),
            },
    {
        let mut i: usize = self.entries.len();
        proof {
            assert(self.entries@.take(i as int) =~= self.entries@);
        }
        while i > 0
            invariant
                i <= self.entries@.len(),
                self@.contains_key(k@) == table_map(self.entries@.take(i as int)).contains_key(
                    k@,
                ),
                table_map(self.entries@.take(i as int)).contains_key(k@) ==> table_map(
                    self.entries@.take(i as int),
                )[k@] == self@[k@],
            decreases i,
        {
            let j = i - 1;
            proof {
                assert(self.entries@.take(i as int).drop_last() =~= self.entries@.take(j as int));
                assert(self.entries@.take(i as int).last() == self.entries@[j as int]);
            }
            if self.entries[j].0 == *k {
                return Some(&self.entries[j].1);
            }
            i = j;
        }
        None
    }

    /// Whether `k` is bound.
    pub fn contains_key(&self, k: &String) -> (b: bool)
        ensures
            b == self@.contains_key(k@),
    {
        self.get(k).is_some()
    }
}

} // verus!
