//! What the lists of keys and profiles, and their names, promise.

use vstd::prelude::*;
use vstd::string::*;

use crate::config::{AuthKeyView, ProfileView};
use crate::forwards::PortForwardView;
use crate::ids::is_id;
use crate::message_laws::{is_key_at, is_no_key};
use crate::naming::{
    free_name, is_first_free, lemma_first_free_exists, lemma_first_free_unique, number_suffix,
    numbered,
};
use crate::profile_field_laws::{law_key_is_found_by_its_id, law_key_is_found_if_there};
use crate::roster::{
    claims_mark, claims_name, id_is_new, is_kept, kept_from, screened, valid_name, Listed,
};
use crate::text::{decimal, hex, is_white_space, occurs_at, trim_end};
use crate::text_laws::law_hex_grows_by_digits;

verus! {

/// A list as it is screened from the front: what was kept so far, and which ids, names and marks
/// are spoken for.
pub struct Sweep<T> {
    pub kept: Seq<T>,
    pub ids: Set<Seq<char>>,
    pub names: Set<Seq<char>>,
    pub marks: Set<Seq<char>>,
}

/// One entry after the other is held against those before it. An id is spoken for once it was
/// seen; a name, once an entry with a new id had it; a mark, once an entry with a new id and a new
/// name had it.
pub open spec fn swept<T: Listed>(s: Seq<T>) -> Sweep<T>
    decreases s.len(),
{
    if s.len() == 0 {
        Sweep { kept: Seq::empty(), ids: Set::empty(), names: Set::empty(), marks: Set::empty() }
    } else {
        let b = swept(s.drop_last());
        let x = s.last();
        let ids = b.ids.insert(x.entry_id());
        if b.ids.contains(x.entry_id()) || (T::rejects_empty_id() && x.entry_id().len() == 0)
            || !valid_name(x.entry_name()) {
            Sweep { ids, ..b }
        } else if b.names.contains(x.entry_name()) {
            Sweep { ids, ..b }
        } else if b.marks.contains(x.entry_mark()) {
            Sweep { ids, names: b.names.insert(x.entry_name()), ..b }
        } else {
            Sweep {
                kept: b.kept.push(x),
                ids,
                names: b.names.insert(x.entry_name()),
                marks: b.marks.insert(x.entry_mark()),
            }
        }
    }
}

proof fn lemma_same_front<T: Listed>(s: Seq<T>, i: int)
    requires
        0 <= i < s.len() - 1,
    ensures
        claims_name(s.drop_last(), i) == claims_name(s, i),
        claims_mark(s.drop_last(), i) == claims_mark(s, i),
        is_kept(s.drop_last(), i) == is_kept(s, i),
{
    let f = s.drop_last();
    assert forall|k: int| 0 <= k <= i implies claims_name(f, k) == #[trigger] claims_name(s, k) by {
        assert(id_is_new(f, k) == id_is_new(s, k)) by {
            assert(forall|j: int| 0 <= j < k ==> #[trigger] f[j] == s[j]);
            if id_is_new(f, k) {
                assert forall|j: int| 0 <= j < k implies (#[trigger] s[j]).entry_id()
                    != s[k].entry_id() by {
                    assert(f[j].entry_id() != f[k].entry_id());
                }
            }
        }
    }
    assert forall|k: int| 0 <= k <= i implies claims_mark(f, k) == #[trigger] claims_mark(s, k) by {
        assert(claims_name(f, k) == claims_name(s, k));
        if claims_mark(f, k) {
            assert forall|j: int| 0 <= j < k && #[trigger] claims_name(s, j) implies s[j].entry_name()
                != s[k].entry_name() by {
                assert(claims_name(f, j));
            }
        }
        if claims_mark(s, k) {
            assert forall|j: int| 0 <= j < k && #[trigger] claims_name(f, j) implies f[j].entry_name()
                != f[k].entry_name() by {
                assert(claims_name(s, j));
            }
        }
    }
    assert(claims_mark(f, i) == claims_mark(s, i));
    assert(claims_name(f, i) == claims_name(s, i));
    if is_kept(f, i) {
        assert forall|j: int| 0 <= j < i && #[trigger] claims_mark(s, j) implies s[j].entry_mark()
            != s[i].entry_mark() by {
            assert(claims_mark(f, j));
        }
    }
    if is_kept(s, i) {
        assert forall|j: int| 0 <= j < i && #[trigger] claims_mark(f, j) implies f[j].entry_mark()
            != f[i].entry_mark() by {
            assert(claims_mark(s, j));
        }
    }
}

proof fn lemma_kept_last<T: Listed>(s: Seq<T>, i: int)
    requires
        s.len() > 0,
        0 <= i <= s.len() - 1,
    ensures
        kept_from(s, i) == (if is_kept(s, s.len() - 1) {
            kept_from(s.drop_last(), i).push(s.last())
        } else {
            kept_from(s.drop_last(), i)
        }),
    decreases s.len() - i,
{
    let f = s.drop_last();
    if i == s.len() - 1 {
        assert(kept_from(s, i + 1) == Seq::<T>::empty());
        assert(kept_from(f, i) == Seq::<T>::empty());
        assert(seq![s[i]] + Seq::<T>::empty() == Seq::<T>::empty().push(s.last()));
    } else {
        lemma_same_front(s, i);
        lemma_kept_last(s, i + 1);
        assert(f[i] == s[i]);
        let rest = kept_from(f, i + 1);
        assert(seq![s[i]] + rest.push(s.last()) == (seq![s[i]] + rest).push(s.last()));
    }
}

proof fn lemma_swept<T: Listed>(s: Seq<T>)
    ensures
        swept(s).kept == screened(s),
        forall|id: Seq<char>| #[trigger]
            swept(s).ids.contains(id) <==> exists|j: int|
                0 <= j < s.len() && (#[trigger] s[j]).entry_id() == id,
        forall|name: Seq<char>| #[trigger]
            swept(s).names.contains(name) <==> exists|j: int|
                0 <= j < s.len() && #[trigger] claims_name(s, j) && s[j].entry_name() == name,
        forall|mark: Seq<char>| #[trigger]
            swept(s).marks.contains(mark) <==> exists|j: int|
                0 <= j < s.len() && #[trigger] claims_mark(s, j) && s[j].entry_mark() == mark,
    decreases s.len(),
{
    if s.len() > 0 {
        let f = s.drop_last();
        let n = s.len() - 1;
        let x = s.last();
        let b = swept(f);
        let r = swept(s);
        lemma_swept(f);
        assert(s[n] == x);
        assert forall|j: int| 0 <= j < n implies claims_name(f, j) == #[trigger] claims_name(
            s,
            j,
        ) by {
            lemma_same_front(s, j);
        }
        assert forall|j: int| 0 <= j < n implies claims_mark(f, j) == #[trigger] claims_mark(
            s,
            j,
        ) by {
            lemma_same_front(s, j);
        }
        // What the last entry claims.
        assert(b.ids.contains(x.entry_id()) <==> exists|j: int|
            0 <= j < f.len() && (#[trigger] f[j]).entry_id() == x.entry_id());
        assert(id_is_new(s, n) <==> !b.ids.contains(x.entry_id()) && !(T::rejects_empty_id()
            && x.entry_id().len() == 0)) by {
            if b.ids.contains(x.entry_id()) {
                let j = choose|j: int|
                    0 <= j < f.len() && (#[trigger] f[j]).entry_id() == x.entry_id();
                assert(s[j].entry_id() == s[n].entry_id());
            } else {
                assert forall|j: int| 0 <= j < n implies (#[trigger] s[j]).entry_id()
                    != s[n].entry_id() by {
                    assert(f[j].entry_id() != x.entry_id());
                }
            }
        }
        assert(claims_mark(s, n) <==> claims_name(s, n) && !b.names.contains(x.entry_name())) by {
            if b.names.contains(x.entry_name()) {
                let j = choose|j: int|
                    0 <= j < f.len() && #[trigger] claims_name(f, j) && f[j].entry_name()
                        == x.entry_name();
                assert(claims_name(s, j));
            } else {
                assert forall|j: int| 0 <= j < n && #[trigger] claims_name(s, j) implies
                    s[j].entry_name() != s[n].entry_name() by {
                    assert(claims_name(f, j));
                }
            }
        }
        assert(is_kept(s, n) <==> claims_mark(s, n) && !b.marks.contains(x.entry_mark())) by {
            if b.marks.contains(x.entry_mark()) {
                let j = choose|j: int|
                    0 <= j < f.len() && #[trigger] claims_mark(f, j) && f[j].entry_mark()
                        == x.entry_mark();
                assert(claims_mark(s, j));
            } else {
                assert forall|j: int| 0 <= j < n && #[trigger] claims_mark(s, j) implies
                    s[j].entry_mark() != s[n].entry_mark() by {
                    assert(claims_mark(f, j));
                }
            }
        }
        lemma_kept_last(s, 0);
        assert forall|id: Seq<char>| #[trigger] r.ids.contains(id) <==> exists|j: int|
            0 <= j < s.len() && (#[trigger] s[j]).entry_id() == id by {
            if b.ids.contains(id) {
                let j = choose|j: int| 0 <= j < f.len() && (#[trigger] f[j]).entry_id() == id;
                assert(s[j].entry_id() == id);
            }
            if id == x.entry_id() {
                assert(s[n].entry_id() == id);
            }
            if exists|j: int| 0 <= j < s.len() && (#[trigger] s[j]).entry_id() == id {
                let j = choose|j: int| 0 <= j < s.len() && (#[trigger] s[j]).entry_id() == id;
                if j < n {
                    assert(f[j].entry_id() == id);
                }
            }
        }
        assert forall|name: Seq<char>| #[trigger] r.names.contains(name) <==> exists|j: int|
            0 <= j < s.len() && #[trigger] claims_name(s, j) && s[j].entry_name() == name by {
            if b.names.contains(name) {
                let j = choose|j: int|
                    0 <= j < f.len() && #[trigger] claims_name(f, j) && f[j].entry_name() == name;
                assert(claims_name(s, j));
            }
            if claims_name(s, n) && name == x.entry_name() {
                assert(claims_name(s, n) && s[n].entry_name() == name);
            }
            if exists|j: int|
                0 <= j < s.len() && #[trigger] claims_name(s, j) && s[j].entry_name() == name {
                let j = choose|j: int|
                    0 <= j < s.len() && #[trigger] claims_name(s, j) && s[j].entry_name() == name;
                if j < n {
                    assert(claims_name(f, j));
                }
            }
        }
        assert forall|mark: Seq<char>| #[trigger] r.marks.contains(mark) <==> exists|j: int|
            0 <= j < s.len() && #[trigger] claims_mark(s, j) && s[j].entry_mark() == mark by {
            if b.marks.contains(mark) {
                let j = choose|j: int|
                    0 <= j < f.len() && #[trigger] claims_mark(f, j) && f[j].entry_mark() == mark;
                assert(claims_mark(s, j));
            }
            if claims_mark(s, n) && mark == x.entry_mark() {
                assert(claims_mark(s, n) && s[n].entry_mark() == mark);
            }
            if exists|j: int|
                0 <= j < s.len() && #[trigger] claims_mark(s, j) && s[j].entry_mark() == mark {
                let j = choose|j: int|
                    0 <= j < s.len() && #[trigger] claims_mark(s, j) && s[j].entry_mark() == mark;
                if j < n {
                    assert(claims_mark(f, j));
                }
            }
        }
    }
}

/// Screening keeps what one walk through the list keeps, entry by entry and in order.
pub proof fn law_screening_is_one_walk<T: Listed>(s: Seq<T>)
    ensures
        screened(s) == swept(s).kept,
{
    lemma_swept(s);
}

/// Profiles are told apart by id, name and server, keys by id, name and public half. A key must
/// have an id.
pub proof fn law_what_tells_entries_apart(p: ProfileView, k: AuthKeyView)
    ensures
        p.entry_id() == p.id && p.entry_name() == p.name && p.entry_mark() == p.server_node_id,
        k.entry_id() == k.id && k.entry_name() == k.name && k.entry_mark() == k.public_key,
        AuthKeyView::rejects_empty_id(),
        !ProfileView::rejects_empty_id(),
{
}

/// A profile with a well-formed name stays if none before it has its id, its name or its server.
pub proof fn law_profile_without_clash_stays(s: Seq<ProfileView>, i: int)
    requires
        0 <= i < s.len(),
        valid_name(s[i].name),
        forall|j: int|
            0 <= j < i ==> (#[trigger] s[j]).id != s[i].id && s[j].name != s[i].name
                && s[j].server_node_id != s[i].server_node_id,
    ensures
        screened(s).contains(s[i]),
{
    assert(is_kept(s, i));
    lemma_kept_is_there(s, 0, i);
}

/// A key with an id and a well-formed name stays if none before it has its id, its name or its
/// public half.
pub proof fn law_key_without_clash_stays(s: Seq<AuthKeyView>, i: int)
    requires
        0 <= i < s.len(),
        valid_name(s[i].name),
        s[i].id.len() > 0,
        forall|j: int|
            0 <= j < i ==> (#[trigger] s[j]).id != s[i].id && s[j].name != s[i].name
                && s[j].public_key != s[i].public_key,
    ensures
        screened(s).contains(s[i]),
{
    assert(is_kept(s, i));
    lemma_kept_is_there(s, 0, i);
}

proof fn lemma_kept_is_there<T: Listed>(s: Seq<T>, from: int, i: int)
    requires
        0 <= from <= i < s.len(),
        is_kept(s, i),
    ensures
        kept_from(s, from).contains(s[i]),
    decreases i - from,
{
    let all = kept_from(s, from);
    if from == i {
        assert(all[0] == s[i]);
    } else {
        lemma_kept_is_there(s, from + 1, i);
        let rest = kept_from(s, from + 1);
        let k = rest.index_of(s[i]);
        if is_kept(s, from) {
            assert(all[k + 1] == s[i]);
        }
    }
}

/// A name that is free stays. One that is taken gets ` - ` and a number behind it: the least from
/// 2 on with which it is free.
pub proof fn law_free_name_has_the_least_number(desired: Seq<char>, taken: Seq<Seq<char>>) -> (n:
    nat)
    ensures
        !taken.contains(desired) ==> free_name(desired, taken) == desired,
        taken.contains(desired) ==> {
            &&& 2 <= n <= taken.len() + 2
            &&& free_name(desired, taken) == numbered(desired, n)
            &&& !taken.contains(numbered(desired, n))
            &&& forall|m: nat| 2 <= m < n ==> taken.contains(#[trigger] numbered(desired, m))
        },
{
    lemma_first_free_exists(desired, taken);
    let n = choose|n: nat| n <= taken.len() + 2 && #[trigger] is_first_free(desired, taken, n);
    let chosen = choose|m: nat| is_first_free(desired, taken, m);
    lemma_first_free_unique(desired, taken, n, chosen);
    n
}

/// A numbered name is the name, ` - ` and the number, where all of that fits in 64 characters.
/// Otherwise the name gives way at its end, and by no more than that and the white space before
/// the cut.
pub proof fn law_numbered_name(desired: Seq<char>, n: nat, cut: int)
    requires
        valid_name(desired),
        cut == 64 - 3 - decimal(n).len(),
        cut > 0,
    ensures
        desired.len() <= cut ==> numbered(desired, n) == desired + seq![' ', '-', ' '] + decimal(n),
        desired.len() > cut && !is_white_space(desired[cut - 1]) ==> numbered(desired, n)
            == desired.take(cut) + seq![' ', '-', ' '] + decimal(n),
        desired.len() > cut && is_white_space(desired[cut - 1]) ==> numbered(desired, n)
            == desired.take(cut - 1) + seq![' ', '-', ' '] + decimal(n),
        numbered(desired, n).len() <= 64,
{
    reveal_strlit(" - ");
    assert(" - "@ == seq![' ', '-', ' ']);
    reveal_strlit("  ");
    let suffix = number_suffix(n);
    assert(suffix.len() == 3 + decimal(n).len());
    if desired.len() <= cut {
        assert(!is_white_space(desired.last())) by {
            if is_white_space(desired[desired.len() - 1]) {
                assert(desired[desired.len() - 1] == ' ');
            }
        }
        assert(trim_end(desired) == desired);
        assert(numbered(desired, n) == desired + suffix);
        assert(desired + suffix == desired + seq![' ', '-', ' '] + decimal(n));
    } else {
        let base = desired.take(cut);
        assert(base.last() == desired[cut - 1]);
        if is_white_space(desired[cut - 1]) {
            assert(desired[cut - 1] == ' ');
            let short = desired.take(cut - 1);
            assert(base.drop_last() == short);
            if short.len() > 0 && is_white_space(short.last()) {
                assert(desired[cut - 2] == ' ');
                assert(desired.subrange(cut - 2, cut) == "  "@);
                assert(occurs_at("  "@, desired, cut - 2));
            }
            assert(trim_end(base) == short) by {
                reveal_with_fuel(trim_end, 3);
            }
            assert(short + suffix == short + seq![' ', '-', ' '] + decimal(n));
        } else {
            assert(trim_end(base) == base);
            assert(base + suffix == base + seq![' ', '-', ' '] + decimal(n));
        }
    }
}

/// A profile can be connected exactly if it has a server and its key is there with its secret.
pub proof fn law_ready_means_server_and_secret(p: ProfileView, keys: Seq<AuthKeyView>, k: int)
    ensures
        p.auth_key_id.len() > 0 && is_key_at(keys, k, p.auth_key_id) ==> (p.is_ready(keys)
            <==> p.server_node_id.len() > 0 && keys[k].secret.len() > 0),
        is_no_key(keys, p.auth_key_id) || p.auth_key_id.len() == 0 ==> !p.is_ready(keys),
{
    if p.auth_key_id.len() > 0 && is_key_at(keys, k, p.auth_key_id) {
        law_key_is_found_by_its_id(keys, p.auth_key_id, k);
    }
    law_key_is_found_if_there(keys, p.auth_key_id);
}

/// A forward is called by its label, or without one by its target.
pub proof fn law_forward_is_called_by_label_or_target(f: PortForwardView)
    ensures
        f.label.len() > 0 ==> f.display_name() == f.label,
        f.label.len() == 0 ==> f.display_name() == f.remote_host.push(':') + decimal(
            f.remote_port as nat,
        ),
{
    reveal_strlit(":");
    assert(f.remote_host + ":"@ == f.remote_host.push(':'));
}

/// An id is made of sixteen digits, each from `0` to `9` or from `a` to `f`.
pub proof fn law_id_is_made_of_hex_digits(s: Seq<char>, i: int)
    requires
        is_id(s),
        0 <= i < s.len(),
    ensures
        s.len() == 16,
        '0' <= s[i] <= '9' || 'a' <= s[i] <= 'f',
{
    let n = choose|n: u64| s == #[trigger] hex(n as nat, 16);
    lemma_hex_digits(n as nat, 16, i);
}

proof fn lemma_hex_digits(n: nat, width: nat, i: int)
    requires
        0 <= i < hex(n, width).len(),
    ensures
        hex(n, width).len() == width,
        '0' <= hex(n, width)[i] <= '9' || 'a' <= hex(n, width)[i] <= 'f',
    decreases width,
{
    if width > 0 {
        let w = (width - 1) as nat;
        law_hex_grows_by_digits(n / 16, n % 16, w);
        reveal_strlit("0123456789abcdef");
        if i < w {
            lemma_hex_digits(n / 16, w, i);
        } else {
            let d = (n % 16) as int;
            assert(hex(n, width)[i] == "0123456789abcdef"@[d]);
        }
    }
}

} // verus!
