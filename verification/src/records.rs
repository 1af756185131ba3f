//! Lists of records that are told apart by their ids.

use vstd::prelude::*;
use vstd::string::*;

use crate::config::{profile_views, AuthKey, AuthKeyView, Profile, ProfileView};
use crate::forwards::{PortForward, PortForwardView};
use crate::roster::views;
use crate::text::same_text;

verus! {

/// A value with an id.
pub trait HasId: Sized {
    /// The id.
    spec fn record_id(self) -> Seq<char>;
}

/// A record whose view tells its id.
pub trait Record: Sized + View where Self::V: HasId {
    /// The record's id.
    fn id_str(&self) -> (r: &str)
        ensures
            r@ == self@.record_id(),
    ;
}

impl HasId for ProfileView {
    open spec fn record_id(self) -> Seq<char> {
        self.id
    }
}

impl Record for Profile {
    fn id_str(&self) -> &str {
        self.id.as_str()
    }
}

impl HasId for AuthKeyView {
    open spec fn record_id(self) -> Seq<char> {
        self.id
    }
}

impl Record for AuthKey {
    fn id_str(&self) -> &str {
        self.id.as_str()
    }
}

impl HasId for PortForwardView {
    open spec fn record_id(self) -> Seq<char> {
        self.id
    }
}

impl Record for PortForward {
    fn id_str(&self) -> &str {
        self.id.as_str()
    }
}

/// The position of the first record from `i` on with the given id.
pub open spec fn position_from<T: HasId>(s: Seq<T>, id: Seq<char>, i: int) -> Option<int>
    decreases s.len() - i,
{
    if i < 0 || i >= s.len() {
        None
    } else if s[i].record_id() == id {
        Some(i)
    } else {
        position_from(s, id, i + 1)
    }
}

/// The position of the first record with the given id.
pub open spec fn position<T: HasId>(s: Seq<T>, id: Seq<char>) -> Option<int> {
    position_from(s, id, 0)
}

/// The list after a record is saved: it replaces the first one with its id, and is added where
/// there is none.
pub open spec fn saved<T: HasId>(s: Seq<T>, t: T) -> Seq<T> {
    match position(s, t.record_id()) {
        Some(i) => s.update(i, t),
        None => s.push(t),
    }
}

/// The list without the records that have the given id.
pub open spec fn without<T: HasId>(s: Seq<T>, id: Seq<char>) -> Seq<T>
    decreases s.len(),
{
    if s.len() == 0 {
        Seq::empty()
    } else if s.last().record_id() == id {
        without(s.drop_last(), id)
    } else {
        without(s.drop_last(), id).push(s.last())
    }
}

/// Where the first record with an id is.
pub proof fn law_position<T: HasId>(s: Seq<T>, id: Seq<char>)
    ensures
        match position(s, id) {
            Some(k) => 0 <= k < s.len() && s[k].record_id() == id && forall|j: int|
                0 <= j < k ==> (#[trigger] s[j]).record_id() != id,
            None => forall|j: int| 0 <= j < s.len() ==> (#[trigger] s[j]).record_id() != id,
        },
{
    lemma_position_from(s, id, 0);
}

proof fn lemma_position_from<T: HasId>(s: Seq<T>, id: Seq<char>, i: int)
    requires
        0 <= i <= s.len(),
    ensures
        match position_from(s, id, i) {
            Some(k) => i <= k < s.len() && s[k].record_id() == id && forall|j: int|
                i <= j < k ==> (#[trigger] s[j]).record_id() != id,
            None => forall|j: int| i <= j < s.len() ==> (#[trigger] s[j]).record_id() != id,
        },
    decreases s.len() - i,
{
    if i < s.len() && s[i].record_id() != id {
        lemma_position_from(s, id, i + 1);
    }
}

/// The records that are left when those with an id are taken out: exactly the others, in their
/// order.
pub proof fn law_without<T: HasId>(s: Seq<T>, id: Seq<char>)
    ensures
        forall|i: int|
            0 <= i < without(s, id).len() ==> (#[trigger] without(s, id)[i]).record_id() != id
                && s.contains(without(s, id)[i]),
        forall|i: int|
            0 <= i < s.len() && (#[trigger] s[i]).record_id() != id ==> without(s, id).contains(
                s[i],
            ),
        without(s, id).len() <= s.len(),
    decreases s.len(),
{
    if s.len() > 0 {
        let front = s.drop_last();
        let rest = without(front, id);
        let all = without(s, id);
        law_without(front, id);
        assert forall|i: int| 0 <= i < all.len() implies (#[trigger] all[i]).record_id() != id
            && s.contains(all[i]) by {
            if i < rest.len() {
                assert(rest[i].record_id() != id);
                let k = front.index_of(rest[i]);
                assert(s[k] == rest[i]);
            } else {
                assert(s[s.len() - 1] == all[i]);
            }
        }
        assert forall|i: int| 0 <= i < s.len() && (#[trigger] s[i]).record_id()
            != id implies all.contains(s[i]) by {
            if i < front.len() {
                assert(front[i].record_id() != id);
                let k = rest.index_of(front[i]);
                assert(all[k] == s[i]);
            } else {
                assert(all[all.len() - 1] == s[i]);
            }
        }
    }
}

/// The position of the first record with the given id.
pub fn find_position<T: Record>(v: &[T], id: &str) -> (r: Option<usize>) where T::V: HasId
    ensures
        match r {
            Some(i) => position(views(v@), id@) == Some(i as int) && i < v@.len(),
            None => position(views(v@), id@) is None,
        },
{
    let ghost s = views(v@);
    let mut i: usize = 0;
    while i < v.len()
        invariant
            i <= v.len(),
            s == views(v@),
            position(s, id@) == position_from(s, id@, i as int),
        decreases v.len() - i,
    {
        assert(s[i as int] == v@[i as int]@);
        if same_text(v[i].id_str(), id) {
            return Some(i);
        }
        i += 1;
    }
    None
}

/// The position of the first profile with the given id.
pub fn profile_position(v: &[Profile], id: &str) -> (r: Option<usize>)
    ensures
        match r {
            Some(i) => position(profile_views(v@), id@) == Some(i as int) && i < v@.len(),
            None => position(profile_views(v@), id@) is None,
        },
{
    assert(views(v@) == profile_views(v@));
    find_position(v, id)
}

/// Saves a record: it replaces the first one with its id, and is added where there is none.
pub fn save_record<T: Record>(v: &mut Vec<T>, t: T) where T::V: HasId
    ensures
        views(final(v)@) == saved(views(old(v)@), t@),
{
    let ghost s = views(v@);
    let pos = find_position(v.as_slice(), t.id_str());
    match pos {
        Some(i) => {
            v.set(i, t);
            assert(views(v@) == s.update(i as int, t@));
        },
        None => {
            v.push(t);
            assert(views(v@) == s.push(t@));
        },
    }
}

/// Takes the records with the given id out of a list.
pub fn drop_records<T: Record>(v: &mut Vec<T>, id: &str) where T::V: HasId
    ensures
        views(final(v)@) == without(views(old(v)@), id@),
{
    let ghost s = views(v@);
    let mut i: usize = v.len();
    assert(s.skip(i as int) == Seq::<T::V>::empty());
    assert(s.take(i as int) + without(s.skip(i as int), id@) == s);
    while i > 0
        invariant
            i <= s.len(),
            i <= v@.len(),
            views(v@) == s.take(i as int) + without(s.skip(i as int), id@),
        decreases i,
    {
        i -= 1;
        let ghost before = v@;
        assert(views(before)[i as int] == s[i as int]);
        assert(before[i as int]@ == s[i as int]);
        assert(s.skip(i as int) == seq![s[i as int]] + s.skip(i + 1));
        proof {
            lemma_without_front(s[i as int], s.skip(i + 1), id@);
        }
        if same_text(v[i].id_str(), id) {
            let _ = v.remove(i);
            assert(views(v@) == views(before).remove(i as int));
        }
        assert(views(v@) == s.take(i as int) + without(s.skip(i as int), id@));
    }
    assert(s.skip(0) == s);
    assert(s.take(0) + without(s, id@) == without(s, id@));
}

proof fn lemma_without_front<T: HasId>(t: T, s: Seq<T>, id: Seq<char>)
    ensures
        without(seq![t] + s, id) == (if t.record_id() == id {
            without(s, id)
        } else {
            seq![t] + without(s, id)
        }),
    decreases s.len(),
{
    let all = seq![t] + s;
    if s.len() == 0 {
        assert(all.drop_last() == Seq::<T>::empty());
        assert(all.last() == t);
        assert(without(all.drop_last(), id) == Seq::<T>::empty());
        assert(without(s, id) == Seq::<T>::empty());
    } else {
        assert(all.drop_last() == seq![t] + s.drop_last());
        assert(all.last() == s.last());
        lemma_without_front(t, s.drop_last(), id);
        if s.last().record_id() != id {
            assert((seq![t] + without(s.drop_last(), id)).push(s.last()) == seq![t] + without(
                s.drop_last(),
                id,
            ).push(s.last()));
        }
    }
}

} // verus!
