//! Lists of named entries, and the screening of lists that somebody may have edited by hand.

use vstd::prelude::*;
use vstd::string::*;

use crate::text::{contains, is_white_space, is_whitespace, occurs, same_text};

verus! {

/// Whether `s` is a well-formed name: 1 to 64 characters, words separated by single spaces, with
/// no space at either end and no other white space.
pub open spec fn valid_name(s: Seq<char>) -> bool {
    &&& 0 < s.len() <= 64
    &&& s[0] != ' '
    &&& s.last() != ' '
    &&& !occurs("  "@, s)
    &&& forall|i: int| 0 <= i < s.len() && is_white_space(#[trigger] s[i]) ==> s[i] == ' '
}

/// Whether `name` is a well-formed profile or key name: 1 to 64 characters, words separated by
/// single spaces, with no space at either end and no other white space.
pub fn is_valid_name(name: &str) -> (r: bool)
    ensures
        r == valid_name(name@),
{
    let n: usize = name.unicode_len();
    if n == 0 || n > 64 {
        return false;
    }
    if name.get_char(0) == ' ' || name.get_char(n - 1) == ' ' || contains(name, "  ") {
        return false;
    }
    let mut i: usize = 0;
    while i < n
        invariant
            i <= n,
            n == name@.len(),
            forall|k: int| 0 <= k < i && is_white_space(#[trigger] name@[k]) ==> name@[k] == ' ',
        decreases n - i,
    {
        let c = name.get_char(i);
        if is_whitespace(c) && c != ' ' {
            return false;
        }
        i += 1;
    }
    true
}

/// An entry of a list in which ids, names and marks occur once each. The mark is what else tells
/// two entries apart: a key's public half, a profile's server.
pub trait Listed: Sized {
    /// The entry's id.
    spec fn entry_id(self) -> Seq<char>;

    /// The entry's name.
    spec fn entry_name(self) -> Seq<char>;

    /// The entry's mark.
    spec fn entry_mark(self) -> Seq<char>;

    /// Whether an entry with an empty id is rejected.
    spec fn rejects_empty_id() -> bool;
}

/// An entry whose view tells its id, its name and its mark.
pub trait Entry: Sized + View where Self::V: Listed {
    /// The entry's id.
    fn id_text(&self) -> (r: &str)
        ensures
            r@ == self@.entry_id(),
    ;

    /// The entry's name.
    fn name_text(&self) -> (r: &str)
        ensures
            r@ == self@.entry_name(),
    ;

    /// The entry's mark.
    fn mark_text(&self) -> (r: &str)
        ensures
            r@ == self@.entry_mark(),
    ;

    /// Whether an entry with an empty id is rejected.
    fn must_have_id() -> (r: bool)
        ensures
            r == Self::V::rejects_empty_id(),
    ;
}

/// The views of entries.
pub open spec fn views<T: View>(s: Seq<T>) -> Seq<T::V> {
    s.map_values(|t: T| t@)
}

/// Whether the entry at `i` has an id that it may have and that no earlier entry has.
pub open spec fn id_is_new<T: Listed>(s: Seq<T>, i: int) -> bool {
    &&& T::rejects_empty_id() ==> s[i].entry_id().len() > 0
    &&& forall|j: int| 0 <= j < i ==> (#[trigger] s[j]).entry_id() != s[i].entry_id()
}

/// Whether the entry at `i` puts a claim on its name: its id is new and the name is well formed.
pub open spec fn claims_name<T: Listed>(s: Seq<T>, i: int) -> bool {
    id_is_new(s, i) && valid_name(s[i].entry_name())
}

/// Whether the entry at `i` is the first to claim its name; it then puts a claim on its mark.
pub open spec fn claims_mark<T: Listed>(s: Seq<T>, i: int) -> bool {
    &&& claims_name(s, i)
    &&& forall|j: int|
        0 <= j < i && #[trigger] claims_name(s, j) ==> s[j].entry_name() != s[i].entry_name()
}

/// Whether the entry at `i` is kept: it is the first to claim its mark.
pub open spec fn is_kept<T: Listed>(s: Seq<T>, i: int) -> bool {
    &&& claims_mark(s, i)
    &&& forall|j: int|
        0 <= j < i && #[trigger] claims_mark(s, j) ==> s[j].entry_mark() != s[i].entry_mark()
}

/// The entries from `i` on that are kept, in order.
pub open spec fn kept_from<T: Listed>(s: Seq<T>, i: int) -> Seq<T>
    decreases s.len() - i,
{
    if i < 0 || i >= s.len() {
        Seq::empty()
    } else if is_kept(s, i) {
        seq![s[i]] + kept_from(s, i + 1)
    } else {
        kept_from(s, i + 1)
    }
}

/// The entries of a list that are kept when it is screened, in order.
pub open spec fn screened<T: Listed>(s: Seq<T>) -> Seq<T> {
    kept_from(s, 0)
}

/// Whether a list is well formed: ids, names and marks occur once each, names are well formed and
/// ids are not empty where they must not be.
pub open spec fn well_formed<T: Listed>(s: Seq<T>) -> bool {
    &&& forall|i: int|
        0 <= i < s.len() ==> valid_name((#[trigger] s[i]).entry_name()) && (T::rejects_empty_id()
            ==> s[i].entry_id().len() > 0)
    &&& forall|i: int, j: int|
        0 <= i < j < s.len() ==> (#[trigger] s[i]).entry_id() != (#[trigger] s[j]).entry_id()
            && s[i].entry_name() != s[j].entry_name() && s[i].entry_mark() != s[j].entry_mark()
}

/// Whether the entry at `i` has an id that it may have and that no earlier entry has.
fn check_id<T: Entry>(v: &Vec<T>, i: usize) -> (r: bool) where T::V: Listed
    requires
        i < v.len(),
    ensures
        r == id_is_new(views(v@), i as int),
{
    let ghost s = views(v@);
    if T::must_have_id() && v[i].id_text().is_empty() {
        return false;
    }
    let mut j: usize = 0;
    while j < i
        invariant
            j <= i < v.len(),
            s == views(v@),
            forall|k: int| 0 <= k < j ==> (#[trigger] s[k]).entry_id() != s[i as int].entry_id(),
        decreases i - j,
    {
        if same_text(v[j].id_text(), v[i].id_text()) {
            assert(s[j as int].entry_id() == s[i as int].entry_id());
            return false;
        }
        j += 1;
    }
    true
}

/// For each entry, whether it is kept.
fn screen<T: Entry>(v: &Vec<T>) -> (r: Vec<bool>) where T::V: Listed
    ensures
        r.len() == v.len(),
        forall|i: int| 0 <= i < v.len() ==> #[trigger] r@[i] == is_kept(views(v@), i),
{
    let ghost s = views(v@);
    let mut named: Vec<bool> = Vec::new();
    let mut marked: Vec<bool> = Vec::new();
    let mut kept: Vec<bool> = Vec::new();
    let mut i: usize = 0;
    while i < v.len()
        invariant
            i <= v.len(),
            s == views(v@),
            named.len() == i,
            marked.len() == i,
            kept.len() == i,
            forall|k: int| 0 <= k < i ==> #[trigger] named@[k] == claims_name(s, k),
            forall|k: int| 0 <= k < i ==> #[trigger] marked@[k] == claims_mark(s, k),
            forall|k: int| 0 <= k < i ==> #[trigger] kept@[k] == is_kept(s, k),
        decreases v.len() - i,
    {
        let name_claimed = check_id(v, i) && is_valid_name(v[i].name_text());
        let mut mark_claimed = name_claimed;
        let mut j: usize = 0;
        while j < i
            invariant
                j <= i < v.len(),
                s == views(v@),
                named.len() == i,
                forall|k: int| 0 <= k < i ==> #[trigger] named@[k] == claims_name(s, k),
                name_claimed == claims_name(s, i as int),
                mark_claimed == (name_claimed && forall|k: int|
                    0 <= k < j && #[trigger] claims_name(s, k) ==> s[k].entry_name()
                        != s[i as int].entry_name()),
            decreases i - j,
        {
            assert(named@[j as int] == claims_name(s, j as int));
            if named[j] && same_text(v[j].name_text(), v[i].name_text()) {
                mark_claimed = false;
            }
            j += 1;
        }
        let mut keep = mark_claimed;
        j = 0;
        while j < i
            invariant
                j <= i < v.len(),
                s == views(v@),
                marked.len() == i,
                forall|k: int| 0 <= k < i ==> #[trigger] marked@[k] == claims_mark(s, k),
                mark_claimed == claims_mark(s, i as int),
                keep == (mark_claimed && forall|k: int|
                    0 <= k < j && #[trigger] claims_mark(s, k) ==> s[k].entry_mark()
                        != s[i as int].entry_mark()),
            decreases i - j,
        {
            assert(marked@[j as int] == claims_mark(s, j as int));
            if marked[j] && same_text(v[j].mark_text(), v[i].mark_text()) {
                keep = false;
            }
            j += 1;
        }
        named.push(name_claimed);
        marked.push(mark_claimed);
        kept.push(keep);
        i += 1;
    }
    kept
}

/// Drops the entries of a list that break its rules, keeping the first of those that clash.
pub fn drop_unfit<T: Entry>(entries: Vec<T>) -> (r: Vec<T>) where T::V: Listed
    ensures
        views(r@) == screened(views(entries@)),
{
    let kept = screen(&entries);
    let ghost all = views(entries@);
    let mut rest = entries;
    let mut i: usize = rest.len();
    assert(all.take(i as int) + kept_from(all, i as int) == all);
    while i > 0
        invariant
            i <= kept.len(),
            kept.len() == all.len(),
            forall|k: int| 0 <= k < all.len() ==> #[trigger] kept@[k] == is_kept(all, k),
            views(rest@) == all.take(i as int) + kept_from(all, i as int),
        decreases i,
    {
        i -= 1;
        assert(kept@[i as int] == is_kept(all, i as int));
        let ghost before = rest@;
        assert(views(before).len() == before.len());
        if !kept[i] {
            let _ = rest.remove(i);
            assert(views(rest@) == views(before).remove(i as int));
        }
        assert(views(rest@) == all.take(i as int) + kept_from(all, i as int));
    }
    assert(all.take(0) + kept_from(all, 0) == kept_from(all, 0));
    rest
}

/// Each entry that is kept stands in the list, at a position that is kept.
proof fn lemma_kept_source<T: Listed>(s: Seq<T>, i: int, a: int)
    requires
        0 <= i <= s.len(),
        0 <= a < kept_from(s, i).len(),
    ensures
        exists|k: int| i <= k < s.len() && is_kept(s, k) && #[trigger] s[k] == kept_from(s, i)[a],
    decreases s.len() - i,
{
    if i < s.len() {
        if is_kept(s, i) {
            if a == 0 {
                assert(s[i] == kept_from(s, i)[0]);
            } else {
                lemma_kept_source(s, i + 1, a - 1);
                assert(kept_from(s, i)[a] == kept_from(s, i + 1)[a - 1]);
            }
        } else {
            lemma_kept_source(s, i + 1, a);
        }
    }
}

/// Every entry of a screened list comes from the list.
pub proof fn law_screened_comes_from_the_list<T: Listed>(s: Seq<T>, i: int)
    requires
        0 <= i < screened(s).len(),
    ensures
        s.contains(screened(s)[i]),
{
    lemma_kept_source(s, 0, i);
}

/// Two entries that are kept differ in id, name and mark.
proof fn lemma_kept_differ<T: Listed>(s: Seq<T>, i: int, a: int, b: int)
    requires
        0 <= i <= s.len(),
        0 <= a < b < kept_from(s, i).len(),
    ensures
        kept_from(s, i)[a].entry_id() != kept_from(s, i)[b].entry_id(),
        kept_from(s, i)[a].entry_name() != kept_from(s, i)[b].entry_name(),
        kept_from(s, i)[a].entry_mark() != kept_from(s, i)[b].entry_mark(),
    decreases s.len() - i,
{
    let rest = kept_from(s, i + 1);
    if is_kept(s, i) {
        assert(kept_from(s, i)[b] == rest[b - 1]);
        if a == 0 {
            lemma_kept_source(s, i + 1, b - 1);
            let k = choose|k: int|
                i + 1 <= k < s.len() && is_kept(s, k) && #[trigger] s[k] == rest[b - 1];
            assert(claims_name(s, i) && claims_mark(s, i));
            assert(s[i].entry_id() != s[k].entry_id());
        } else {
            assert(kept_from(s, i)[a] == rest[a - 1]);
            lemma_kept_differ(s, i + 1, a - 1, b - 1);
        }
    } else {
        lemma_kept_differ(s, i + 1, a, b);
    }
}

/// A screened list is well formed.
pub proof fn law_screened_is_well_formed<T: Listed>(s: Seq<T>)
    ensures
        well_formed(screened(s)),
{
    let t = screened(s);
    assert forall|i: int| 0 <= i < t.len() implies valid_name((#[trigger] t[i]).entry_name()) && (
    T::rejects_empty_id() ==> t[i].entry_id().len() > 0) by {
        lemma_kept_source(s, 0, i);
    }
    assert forall|i: int, j: int| 0 <= i < j < t.len() implies (#[trigger] t[i]).entry_id() != (
    #[trigger] t[j]).entry_id() && t[i].entry_name() != t[j].entry_name() && t[i].entry_mark()
        != t[j].entry_mark() by {
        lemma_kept_differ(s, 0, i, j);
    }
}

proof fn lemma_well_formed_all_kept<T: Listed>(s: Seq<T>, i: int)
    requires
        well_formed(s),
        0 <= i <= s.len(),
    ensures
        kept_from(s, i) == s.skip(i),
    decreases s.len() - i,
{
    if i < s.len() {
        lemma_well_formed_all_kept(s, i + 1);
        assert(is_kept(s, i));
        assert(seq![s[i]] + s.skip(i + 1) == s.skip(i));
    }
}

/// Screening a well-formed list changes nothing.
pub proof fn law_well_formed_is_unchanged<T: Listed>(s: Seq<T>)
    requires
        well_formed(s),
    ensures
        screened(s) == s,
{
    lemma_well_formed_all_kept(s, 0);
    assert(s.skip(0) == s);
}

/// Screening a list twice is screening it once.
pub proof fn law_screening_is_idempotent<T: Listed>(s: Seq<T>)
    ensures
        screened(screened(s)) == screened(s),
{
    law_screened_is_well_formed(s);
    law_well_formed_is_unchanged(screened(s));
}

} // verus!
