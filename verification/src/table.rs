//! A table from texts to values.

use vstd::prelude::*;
use vstd::string::*;

use crate::text::same_text;

verus! {

/// A table from texts to values. Its order means nothing.
#[derive(Debug)]
pub struct Table<T> {
    pub entries: Vec<(String, T)>,
}

/// The map that a list of entries stands for: of several entries for a key, the last counts.
pub open spec fn map_of<T: View>(s: Seq<(String, T)>) -> Map<Seq<char>, T::V>
    decreases s.len(),
{
    if s.len() == 0 {
        Map::empty()
    } else {
        map_of(s.drop_last()).insert(s.last().0@, s.last().1@)
    }
}

impl<T: View> View for Table<T> {
    type V = Map<Seq<char>, T::V>;

    open spec fn view(&self) -> Map<Seq<char>, T::V> {
        map_of(self.entries@)
    }
}

proof fn lemma_absent<T: View>(s: Seq<(String, T)>, key: Seq<char>)
    requires
        forall|i: int| 0 <= i < s.len() ==> (#[trigger] s[i]).0@ != key,
    ensures
        !map_of(s).contains_key(key),
    decreases s.len(),
{
    if s.len() > 0 {
        assert forall|i: int| 0 <= i < s.drop_last().len() implies (
        #[trigger] s.drop_last()[i]).0@ != key by {
            assert(s[i].0@ != key);
        }
        lemma_absent(s.drop_last(), key);
        assert(s[s.len() - 1].0@ != key);
    }
}

proof fn lemma_remove_entry<T: View>(s: Seq<(String, T)>, i: int)
    requires
        0 <= i < s.len(),
    ensures
        map_of(s.remove(i)).remove(s[i].0@) == map_of(s).remove(s[i].0@),
    decreases s.len(),
{
    let key = s[i].0@;
    if i == s.len() - 1 {
        assert(s.remove(i) == s.drop_last());
    } else {
        let front = s.drop_last();
        lemma_remove_entry(front, i);
        assert(s.remove(i).drop_last() == front.remove(i));
        assert(s.remove(i).last() == s.last());
        assert(map_of(s.remove(i)).remove(key) == map_of(s).remove(key)) by {
            let a = map_of(front.remove(i));
            let b = map_of(front);
            assert(a.remove(key) == b.remove(key));
            let k = s.last().0@;
            let v = s.last().1@;
            assert(a.insert(k, v).remove(key) == a.remove(key).insert(k, v).remove(key));
            assert(b.insert(k, v).remove(key) == b.remove(key).insert(k, v).remove(key));
        }
    }
}

impl<T: View> Table<T> {
    /// An empty table.
    pub fn new() -> (r: Self)
        ensures
            r@ == Map::<Seq<char>, T::V>::empty(),
    {
        Table { entries: Vec::new() }
    }

    /// The value for a key.
    pub fn get(&self, key: &str) -> (r: Option<&T>)
        ensures
            match r {
                Some(v) => self@.contains_key(key@) && self@[key@] == v@,
                None => !self@.contains_key(key@),
            },
    {
        let mut i: usize = self.entries.len();
        assert(self.entries@.take(i as int) == self.entries@);
        while i > 0
            invariant
                i <= self.entries.len(),
                self@.contains_key(key@) == map_of(self.entries@.take(i as int)).contains_key(key@),
                self@.contains_key(key@) ==> self@[key@] == map_of(
                    self.entries@.take(i as int),
                )[key@],
            decreases i,
        {
            i -= 1;
            assert(self.entries@.take(i + 1).drop_last() == self.entries@.take(i as int));
            assert(self.entries@.take(i + 1).last() == self.entries@[i as int]);
            if same_text(self.entries[i].0.as_str(), key) {
                return Some(&self.entries[i].1);
            }
        }
        None
    }

    /// Takes a key out of the table.
    pub fn remove(&mut self, key: &str)
        ensures
            final(self)@ == old(self)@.remove(key@),
    {
        let mut i: usize = self.entries.len();
        while i > 0
            invariant
                i <= self.entries.len(),
                map_of(self.entries@).remove(key@) == map_of(old(self).entries@).remove(key@),
                forall|j: int|
                    i <= j < self.entries@.len() ==> (#[trigger] self.entries@[j]).0@ != key@,
            decreases i,
        {
            i -= 1;
            if same_text(self.entries[i].0.as_str(), key) {
                proof {
                    lemma_remove_entry(self.entries@, i as int);
                }
                let _ = self.entries.remove(i);
            }
        }
        proof {
            lemma_absent(self.entries@, key@);
            assert(map_of(self.entries@).remove(key@) == map_of(self.entries@));
        }
    }

    /// Puts a value under a key, in place of the one that is there.
    pub fn insert(&mut self, key: String, value: T)
        ensures
            final(self)@ == old(self)@.insert(key@, value@),
    {
        self.remove(key.as_str());
        let ghost before = self.entries@;
        let ghost (k, v) = (key@, value@);
        self.entries.push((key, value));
        proof {
            assert(self.entries@.drop_last() == before);
            assert(old(self)@.remove(k).insert(k, v) == old(self)@.insert(k, v));
        }
    }
}

} // verus!
