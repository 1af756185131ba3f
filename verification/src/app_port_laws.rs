//! What the desktop app promises of local ports: since any set of profiles can run at the same
//! time, no port is ever used twice.

use vstd::prelude::*;

use crate::app::{refreshed, step, AppView, NewIdsView};
use crate::app_laws::{app_ok, ids_are_new, lemma_refreshed, same_but_forwards};
use crate::config::ProfileView;
use crate::form_laws::{
    belongs_to, law_saving_a_forward_keeps_ports_apart, law_saving_a_profile_keeps_ports_apart,
    lemma_profile_at, port_at, ports_apart, with_forward,
};
use crate::forms::{profile_with_id, ProfileFormView};
use crate::forward_form::ForwardFormView;
use crate::forwards::PortForwardView;
use crate::merge::{
    lemma_server_position, merged, profiles_ok, server_position, with_ids, FreshIdsView,
};
use crate::message::Message;
use crate::records::{law_position, position, saved, without, HasId};
use crate::session::SnapshotView;

verus! {

/// Whether no two forwards have the same id, in one profile or in two.
pub open spec fn forward_ids_apart(profiles: Seq<ProfileView>) -> bool {
    forall|i: int, k: int, j: int, l: int|
        0 <= i < profiles.len() && 0 <= j < profiles.len() && 0 <= k < profiles[i].forwards.len()
            && 0 <= l < profiles[j].forwards.len() && (i != j || k != l) ==> (
        #[trigger] profiles[i].forwards[k]).id != (#[trigger] profiles[j].forwards[l]).id
}

/// Whether a forward that a form edits is, if anywhere, in the form's profile.
pub open spec fn form_belongs(
    profiles: Seq<ProfileView>,
    form: Option<(Seq<char>, ForwardFormView)>,
) -> bool {
    match form {
        Some((profile_id, f)) => match f.editing_id {
            Some(id) => forall|j: int, l: int|
                0 <= j < profiles.len() && 0 <= l < profiles[j].forwards.len() && (
                #[trigger] profiles[j].forwards[l]).id == id ==> profiles[j].id == profile_id,
            None => true,
        },
        None => true,
    }
}

/// Whether the local ports and the ids of all forwards are apart, and the open forward form edits
/// a forward of its profile.
pub open spec fn forwards_ok(s: AppView) -> bool {
    &&& ports_apart(s.profiles)
    &&& forward_ids_apart(s.profiles)
    &&& form_belongs(s.profiles, s.forward_form)
}

/// Whether no forward has the given id.
pub open spec fn no_forward_has(profiles: Seq<ProfileView>, id: Seq<char>) -> bool {
    forall|j: int, l: int|
        0 <= j < profiles.len() && 0 <= l < profiles[j].forwards.len() ==> (
        #[trigger] profiles[j].forwards[l]).id != id
}

spec fn same_places(a: Seq<ProfileView>, b: Seq<ProfileView>) -> bool {
    &&& a.len() == b.len()
    &&& forall|i: int| 0 <= i < a.len() ==> #[trigger] same_place(a[i], b[i])
}

spec fn same_place(a: ProfileView, b: ProfileView) -> bool {
    &&& a.id == b.id
    &&& a.socks_port == b.socks_port
    &&& a.http_port == b.http_port
    &&& a.forwards.len() == b.forwards.len()
    &&& forall|k: int|
        0 <= k < a.forwards.len() ==> (#[trigger] a.forwards[k]).id == b.forwards[k].id
            && a.forwards[k].local_port == b.forwards[k].local_port
}

proof fn lemma_same_places(
    a: Seq<ProfileView>,
    b: Seq<ProfileView>,
    form: Option<(Seq<char>, ForwardFormView)>,
)
    requires
        same_places(a, b),
        ports_apart(b),
        forward_ids_apart(b),
        form_belongs(b, form),
    ensures
        ports_apart(a),
        forward_ids_apart(a),
        form_belongs(a, form),
{
    assert forall|i: int, k: int, j: int, l: int|
        0 <= i < a.len() && 0 <= j < a.len() && (i != j || k != l) && port_at(a[i], k)
            is Some implies #[trigger] port_at(a[i], k) != #[trigger] port_at(a[j], l) by {
        assert(same_place(a[i], b[i]) && same_place(a[j], b[j]));
        assert(port_at(a[i], k) == port_at(b[i], k));
        assert(port_at(a[j], l) == port_at(b[j], l));
    }
    assert forall|i: int, k: int, j: int, l: int|
        0 <= i < a.len() && 0 <= j < a.len() && 0 <= k < a[i].forwards.len() && 0 <= l
            < a[j].forwards.len() && (i != j || k != l) implies (
    #[trigger] a[i].forwards[k]).id != (#[trigger] a[j].forwards[l]).id by {
        assert(same_place(a[i], b[i]) && same_place(a[j], b[j]));
        assert(b[i].forwards[k].id != b[j].forwards[l].id);
    }
    if let Some((profile_id, f)) = form {
        if let Some(id) = f.editing_id {
            assert forall|j: int, l: int|
                0 <= j < a.len() && 0 <= l < a[j].forwards.len() && (
                #[trigger] a[j].forwards[l]).id == id implies a[j].id == profile_id by {
                assert(same_place(a[j], b[j]));
                assert(b[j].forwards[l].id == id);
            }
        }
    }
}

/// Where the entry at `a` of a list without an id stands in the list.
spec fn source<T: HasId>(s: Seq<T>, id: Seq<char>, a: int) -> int
    decreases s.len(),
{
    if s.len() == 0 {
        0
    } else if s.last().record_id() != id && a == without(s.drop_last(), id).len() {
        s.len() - 1
    } else {
        source(s.drop_last(), id, a)
    }
}

proof fn lemma_source<T: HasId>(s: Seq<T>, id: Seq<char>)
    ensures
        forall|a: int|
            0 <= a < without(s, id).len() ==> 0 <= #[trigger] source(s, id, a) < s.len() && s[source(
                s,
                id,
                a,
            )] == without(s, id)[a],
        forall|a: int, b: int|
            0 <= a < b < without(s, id).len() ==> #[trigger] source(s, id, a) < #[trigger] source(
                s,
                id,
                b,
            ),
    decreases s.len(),
{
    if s.len() > 0 {
        let front = s.drop_last();
        let rest = without(front, id);
        let all = without(s, id);
        lemma_source(front, id);
        assert forall|a: int| 0 <= a < all.len() implies 0 <= #[trigger] source(s, id, a) < s.len()
            && s[source(s, id, a)] == all[a] by {
            if a < rest.len() {
                assert(source(s, id, a) == source(front, id, a));
                assert(front[source(front, id, a)] == rest[a]);
            }
        }
        assert forall|a: int, b: int| 0 <= a < b < all.len() implies #[trigger] source(s, id, a)
            < #[trigger] source(s, id, b) by {
            assert(source(s, id, a) == source(front, id, a));
            if b < rest.len() {
                assert(source(s, id, b) == source(front, id, b));
            }
        }
    }
}

proof fn lemma_removed(
    profiles: Seq<ProfileView>,
    pos: int,
)
    requires
        0 <= pos < profiles.len(),
        ports_apart(profiles),
        forward_ids_apart(profiles),
    ensures
        ports_apart(profiles.remove(pos)),
        forward_ids_apart(profiles.remove(pos)),
{
    let r = profiles.remove(pos);
    assert forall|i: int, k: int, j: int, l: int|
        0 <= i < r.len() && 0 <= j < r.len() && (i != j || k != l) && port_at(r[i], k)
            is Some implies #[trigger] port_at(r[i], k) != #[trigger] port_at(r[j], l) by {
        let x = if i < pos {
            i
        } else {
            i + 1
        };
        let y = if j < pos {
            j
        } else {
            j + 1
        };
        assert(port_at(profiles[x], k) != port_at(profiles[y], l));
    }
    assert forall|i: int, k: int, j: int, l: int|
        0 <= i < r.len() && 0 <= j < r.len() && 0 <= k < r[i].forwards.len() && 0 <= l
            < r[j].forwards.len() && (i != j || k != l) implies (
    #[trigger] r[i].forwards[k]).id != (#[trigger] r[j].forwards[l]).id by {
        let x = if i < pos {
            i
        } else {
            i + 1
        };
        let y = if j < pos {
            j
        } else {
            j + 1
        };
        assert(profiles[x].forwards[k].id != profiles[y].forwards[l].id);
    }
}

/// The place in the list before a forward was deleted.
spec fn place_before(profiles: Seq<ProfileView>, pos: int, id: Seq<char>, i: int, k: int) -> int {
    if i == pos && k >= 0 {
        source(profiles[pos].forwards, id, k)
    } else {
        k
    }
}

proof fn lemma_deleted_forward(
    profiles: Seq<ProfileView>,
    pos: int,
    id: Seq<char>,
    form: Option<(Seq<char>, ForwardFormView)>,
)
    requires
        0 <= pos < profiles.len(),
        ports_apart(profiles),
        forward_ids_apart(profiles),
        form_belongs(profiles, form),
    ensures
        ({
            let r = profiles.update(
                pos,
                ProfileView {
                    forwards: without(profiles[pos].forwards, id),
                    ..profiles[pos]
                },
            );
            &&& ports_apart(r)
            &&& forward_ids_apart(r)
            &&& form_belongs(r, form)
        }),
{
    let forwards = without(profiles[pos].forwards, id);
    let r = profiles.update(pos, ProfileView { forwards, ..profiles[pos] });
    lemma_source(profiles[pos].forwards, id);
    assert forall|i: int, k: int|
        0 <= i < r.len() && port_at(r[i], k) is Some implies #[trigger] port_at(r[i], k) == port_at(
        profiles[i],
        place_before(profiles, pos, id, i, k),
    ) by {}
    assert forall|i: int, k: int, j: int, l: int|
        0 <= i < r.len() && 0 <= j < r.len() && (i != j || k != l) && port_at(r[i], k)
            is Some implies #[trigger] port_at(r[i], k) != #[trigger] port_at(r[j], l) by {
        if port_at(r[j], l) is Some {
            let x = place_before(profiles, pos, id, i, k);
            let y = place_before(profiles, pos, id, j, l);
            assert(port_at(r[i], k) == port_at(profiles[i], x));
            assert(port_at(r[j], l) == port_at(profiles[j], y));
            assert(i != j || x != y) by {
                if i == j && i == pos && k >= 0 && l >= 0 {
                    if k < l {
                        assert(source(profiles[pos].forwards, id, k) < source(
                            profiles[pos].forwards,
                            id,
                            l,
                        ));
                    } else {
                        assert(source(profiles[pos].forwards, id, l) < source(
                            profiles[pos].forwards,
                            id,
                            k,
                        ));
                    }
                }
            }
            assert(port_at(profiles[i], x) != port_at(profiles[j], y));
        }
    }
    assert forall|i: int, k: int, j: int, l: int|
        0 <= i < r.len() && 0 <= j < r.len() && 0 <= k < r[i].forwards.len() && 0 <= l
            < r[j].forwards.len() && (i != j || k != l) implies (
    #[trigger] r[i].forwards[k]).id != (#[trigger] r[j].forwards[l]).id by {
        let x = place_before(profiles, pos, id, i, k);
        let y = place_before(profiles, pos, id, j, l);
        assert(profiles[i].forwards[x] == r[i].forwards[k]);
        assert(profiles[j].forwards[y] == r[j].forwards[l]);
        if i == j && i == pos {
            if k < l {
                assert(x < y);
            } else {
                assert(y < x);
            }
        }
        assert(profiles[i].forwards[x].id != profiles[j].forwards[y].id);
    }
    if let Some((profile_id, f)) = form {
        if let Some(e) = f.editing_id {
            assert forall|j: int, l: int|
                0 <= j < r.len() && 0 <= l < r[j].forwards.len() && (#[trigger] r[j].forwards[l]).id
                    == e implies r[j].id == profile_id by {
                let y = place_before(profiles, pos, id, j, l);
                assert(profiles[j].forwards[y].id == e);
            }
        }
    }
}

/// The id of a forward that a form accepts belongs where it is saved.
proof fn lemma_saved_forward_belongs(
    s: AppView,
    fresh: Seq<char>,
    profile_id: Seq<char>,
    form: ForwardFormView,
    forward: PortForwardView,
    pos: int,
)
    requires
        profiles_ok(s.profiles),
        forwards_ok(s),
        no_forward_has(s.profiles, fresh),
        s.forward_form == Some((profile_id, form)),
        form.checked(s.profiles, fresh) == Ok::<PortForwardView, Seq<char>>(forward),
        position(s.profiles, profile_id) == Some(pos),
    ensures
        0 <= pos < s.profiles.len(),
        belongs_to(s.profiles, pos, forward.id),
{
    law_position(s.profiles, profile_id);
    let forwards = s.profiles[pos].forwards;
    law_position(forwards, forward.id);
    assert forall|j: int, l: int|
        0 <= j < s.profiles.len() && 0 <= l < s.profiles[j].forwards.len() && (
        #[trigger] s.profiles[j].forwards[l]).id == forward.id implies j == pos && position(
        forwards,
        forward.id,
    ) == Some(l) by {
        assert(form.editing_id == Some(forward.id));
        assert(s.profiles[j].id == profile_id);
        if j != pos {
            assert(s.profiles[j].id != s.profiles[pos].id);
        }
        match position(forwards, forward.id) {
            Some(k) => {
                if k != l {
                    assert(s.profiles[pos].forwards[k].id != s.profiles[pos].forwards[l].id);
                }
            },
            None => {
                assert(forwards[l].record_id() != forward.id);
            },
        }
    }
}

proof fn lemma_saved_forward_ids(profiles: Seq<ProfileView>, pos: int, forward: PortForwardView)
    requires
        0 <= pos < profiles.len(),
        forward_ids_apart(profiles),
        belongs_to(profiles, pos, forward.id),
    ensures
        forward_ids_apart(with_forward(profiles, pos, forward)),
{
    let r = with_forward(profiles, pos, forward);
    let forwards = profiles[pos].forwards;
    law_position(forwards, forward.id);
    let at: int = match position(forwards, forward.id) {
        Some(k) => k,
        None => forwards.len() as int,
    };
    assert forall|j: int, l: int|
        0 <= j < r.len() && 0 <= l < r[j].forwards.len() && !(j == pos && l == at) implies (
    #[trigger] r[j].forwards[l]) == profiles[j].forwards[l] && r[j].forwards[l].id
        != forward.id by {
        if profiles[j].forwards[l].id == forward.id {
            assert(j == pos && position(forwards, forward.id) == Some(l));
        }
    }
    assert forall|i: int, k: int, j: int, l: int|
        0 <= i < r.len() && 0 <= j < r.len() && 0 <= k < r[i].forwards.len() && 0 <= l
            < r[j].forwards.len() && (i != j || k != l) implies (
    #[trigger] r[i].forwards[k]).id != (#[trigger] r[j].forwards[l]).id by {
        if i == pos && k == at {
            assert(r[i].forwards[k] == forward);
        } else if j == pos && l == at {
            assert(r[j].forwards[l] == forward);
        } else {
            assert(r[i].forwards[k] == profiles[i].forwards[k]);
            assert(r[j].forwards[l] == profiles[j].forwards[l]);
        }
    }
}

/// Saving a profile form moves no forward.
proof fn lemma_saved_profile_forwards(
    s: AppView,
    fresh: Seq<char>,
    form: ProfileFormView,
    profile: ProfileView,
)
    requires
        profiles_ok(s.profiles),
        forwards_ok(s),
        form.checked(s.profiles, s.keys, fresh) == Ok::<ProfileView, Seq<char>>(profile),
    ensures
        forward_ids_apart(saved(s.profiles, profile)),
        form_belongs(saved(s.profiles, profile), s.forward_form),
{
    let r = saved(s.profiles, profile);
    law_position(s.profiles, profile.id);
    lemma_profile_at(s.profiles, profile.id);
    assert(forall|j: int|
        0 <= j < s.profiles.len() ==> (#[trigger] s.profiles[j]).record_id() == s.profiles[j].id);
    if position(s.profiles, profile.id) is None {
        assert(forall|j: int|
            0 <= j < s.profiles.len() ==> (#[trigger] s.profiles[j]).id != profile.id);
        assert(profile.forwards.len() == 0);
    } else if form.editing_id is Some {
        let pos = position(s.profiles, profile.id)->0;
        assert(s.profiles[pos].id == profile.id);
        assert(form.editing_id == Some(profile.id));
        assert(profile_with_id(s.profiles, profile.id) is Some);
        let p = profile_with_id(s.profiles, profile.id)->0;
        let k = choose|k: int|
            0 <= k < s.profiles.len() && #[trigger] s.profiles[k] == p && p.id == profile.id && (
            forall|j: int| 0 <= j < k ==> (#[trigger] s.profiles[j]).id != profile.id);
        if k != pos {
            assert(s.profiles[k].id != s.profiles[pos].id);
        }
        assert(profile.forwards == s.profiles[pos].forwards);
    }
    assert forall|j: int| 0 <= j < s.profiles.len() implies ((#[trigger] r[j]).forwards
        == s.profiles[j].forwards || r[j].forwards.len() == 0) && r[j].id == s.profiles[j].id by {}
    assert forall|i: int, k: int, j: int, l: int|
        0 <= i < r.len() && 0 <= j < r.len() && 0 <= k < r[i].forwards.len() && 0 <= l
            < r[j].forwards.len() && (i != j || k != l) implies (
    #[trigger] r[i].forwards[k]).id != (#[trigger] r[j].forwards[l]).id by {
        assert(i < s.profiles.len() && j < s.profiles.len());
        assert(s.profiles[i].forwards[k].id != s.profiles[j].forwards[l].id);
    }
    if let Some((profile_id, f)) = s.forward_form {
        if let Some(e) = f.editing_id {
            assert forall|j: int, l: int|
                0 <= j < r.len() && 0 <= l < r[j].forwards.len() && (#[trigger] r[j].forwards[l]).id
                    == e implies r[j].id == profile_id by {
                assert(j < s.profiles.len());
                assert(s.profiles[j].forwards[l].id == e);
            }
        }
    }
}

/// Whether a form edits the same forward of the same profile as another, or none.
spec fn edits_no_other(
    a: Option<(Seq<char>, ForwardFormView)>,
    b: Option<(Seq<char>, ForwardFormView)>,
) -> bool {
    match a {
        None => true,
        Some((id, f)) => f.editing_id is None || (b matches Some((other, g)) && other == id
            && g.editing_id == f.editing_id),
    }
}

proof fn lemma_same_lists(s: AppView, t: AppView)
    requires
        forwards_ok(s),
        t.profiles == s.profiles,
        edits_no_other(t.forward_form, s.forward_form),
    ensures
        forwards_ok(t),
{
}

proof fn lemma_tick_keeps_ports(s: AppView, snapshots: Map<Seq<char>, SnapshotView>, revision: u64)
    requires
        forwards_ok(s),
    ensures
        forwards_ok(s.refreshing(snapshots, revision).0),
{
    lemma_refreshed(s.profiles, snapshots, s.forward_errors, s.routed_caches);
    let r = refreshed(s.profiles, snapshots, s.forward_errors, s.routed_caches);
    assert forall|i: int| 0 <= i < r.profiles.len() implies #[trigger] same_place(
        r.profiles[i],
        s.profiles[i],
    ) by {
        assert(same_but_forwards(r.profiles, s.profiles));
    }
    lemma_same_places(r.profiles, s.profiles, s.forward_form);
}

proof fn lemma_profile_deletion_keeps_ports(s: AppView, m: Message, fresh: NewIdsView)
    requires
        app_ok(s),
        forwards_ok(s),
        ids_are_new(s, fresh),
        no_forward_has(s.profiles, fresh.id),
        m is DeleteProfile,
    ensures
        forwards_ok(step(s, m, fresh).0),
{
    if let Message::DeleteProfile(id) = m {
        law_position(s.profiles, id@);
        if let Some(pos) = position(s.profiles, id@) {
            lemma_removed(s.profiles, pos);
        }
    }
}

proof fn lemma_profile_save_keeps_ports(s: AppView, m: Message, fresh: NewIdsView)
    requires
        app_ok(s),
        forwards_ok(s),
        ids_are_new(s, fresh),
        no_forward_has(s.profiles, fresh.id),
        m is ProfileFormSave,
    ensures
        forwards_ok(step(s, m, fresh).0),
{
    if let Message::ProfileFormSave = m {
        if let Some(form) = s.profile_form {
            if let Ok(profile) = form.checked(s.profiles, s.keys, fresh.id) {
                law_saving_a_profile_keeps_ports_apart(
                    form,
                    s.profiles,
                    s.keys,
                    fresh.id,
                    profile,
                );
                lemma_saved_profile_forwards(s, fresh.id, form, profile);
            }
        }
    }
}

proof fn lemma_forward_save_keeps_ports(s: AppView, m: Message, fresh: NewIdsView)
    requires
        app_ok(s),
        forwards_ok(s),
        ids_are_new(s, fresh),
        no_forward_has(s.profiles, fresh.id),
        m is FormSave,
    ensures
        forwards_ok(step(s, m, fresh).0),
{
    if let Message::FormSave = m {
        if let Some((profile_id, form)) = s.forward_form {
            if let Ok(forward) = form.checked(s.profiles, fresh.id) {
                if let Some(pos) = position(s.profiles, profile_id) {
                    lemma_saved_forward_belongs(s, fresh.id, profile_id, form, forward, pos);
                    law_saving_a_forward_keeps_ports_apart(
                        form,
                        s.profiles,
                        fresh.id,
                        forward,
                        pos,
                    );
                    lemma_saved_forward_ids(s.profiles, pos, forward);
                }
            }
        }
    }
}

proof fn lemma_forward_deletion_keeps_ports(s: AppView, m: Message, fresh: NewIdsView)
    requires
        app_ok(s),
        forwards_ok(s),
        ids_are_new(s, fresh),
        no_forward_has(s.profiles, fresh.id),
        m is DeleteForward,
    ensures
        forwards_ok(step(s, m, fresh).0),
{
    if let Message::DeleteForward(profile_id, forward_id) = m {
        law_position(s.profiles, profile_id@);
        if let Some(pos) = position(s.profiles, profile_id@) {
            lemma_deleted_forward(s.profiles, pos, forward_id@, s.forward_form);
        }
    }
}

proof fn lemma_toggle_keeps_ports(s: AppView, m: Message, fresh: NewIdsView)
    requires
        app_ok(s),
        forwards_ok(s),
        ids_are_new(s, fresh),
        no_forward_has(s.profiles, fresh.id),
        m is ToggleForward,
    ensures
        forwards_ok(step(s, m, fresh).0),
{
    let t = step(s, m, fresh).0;
    if let Message::ToggleForward(profile_id, forward_id, enabled) = m {
        law_position(s.profiles, profile_id@);
        if let Some(pos) = position(s.profiles, profile_id@) {
            law_position(s.profiles[pos].forwards, forward_id@);
        }
        assert forall|i: int| 0 <= i < t.profiles.len() implies #[trigger] same_place(
            t.profiles[i],
            s.profiles[i],
        ) by {}
        lemma_same_places(t.profiles, s.profiles, s.forward_form);
    }
}

proof fn lemma_forward_edit_keeps_ports(s: AppView, m: Message, fresh: NewIdsView)
    requires
        app_ok(s),
        forwards_ok(s),
        ids_are_new(s, fresh),
        no_forward_has(s.profiles, fresh.id),
        m is EditForward,
    ensures
        forwards_ok(step(s, m, fresh).0),
{
    if let Message::EditForward(profile_id, forward_id) = m {
        lemma_profile_at(s.profiles, profile_id@);
        if let Some(p) = profile_with_id(s.profiles, profile_id@) {
            law_position(p.forwards, forward_id@);
            if let Some(k) = position(p.forwards, forward_id@) {
                let i = choose|i: int|
                    0 <= i < s.profiles.len() && #[trigger] s.profiles[i] == p && p.id
                        == profile_id@ && (forall|j: int|
                        0 <= j < i ==> (#[trigger] s.profiles[j]).id != profile_id@);
                assert forall|j: int, l: int|
                    0 <= j < s.profiles.len() && 0 <= l < s.profiles[j].forwards.len() && (
                    #[trigger] s.profiles[j].forwards[l]).id
                        == forward_id@ implies s.profiles[j].id == profile_id@ by {
                    if j != i || l != k {
                        assert(s.profiles[i].forwards[k].id != s.profiles[j].forwards[l].id);
                    }
                }
            }
        }
    }
}

/// Whether a message may change profiles or open the form of a forward that is there.
spec fn is_about_forwards(m: Message) -> bool {
    match m {
        Message::Tick(_)
        | Message::SetupTray(_)
        | Message::DeleteProfile(_)
        | Message::ProfileFormSave
        | Message::FormSave
        | Message::DeleteForward(_, _)
        | Message::ToggleForward(_, _, _)
        | Message::EditForward(_, _)
        | Message::ImportRead(Ok(_)) => true,
        _ => false,
    }
}

proof fn lemma_menu_keeps_forwards(s: AppView, id: Seq<char>)
    ensures
        s.menu(id).0.profiles == s.profiles,
        s.menu(id).0.forward_form == s.forward_form,
{
}

proof fn lemma_other_messages(s: AppView, m: Message, fresh: NewIdsView)
    requires
        !is_about_forwards(m),
    ensures
        step(s, m, fresh).0.profiles == s.profiles,
        edits_no_other(step(s, m, fresh).0.forward_form, s.forward_form),
{
    match m {
        Message::TrayMenu(id) => {
            lemma_menu_keeps_forwards(s, id@);
        },
        Message::Connect(_) => {},
        Message::NewKeyCreate(_) => {},
        Message::KeyFormSave(_) => {},
        Message::DeleteKey(_) | Message::ExportKey(_) => {},
        Message::EditKey(_) | Message::EditProfile(_) => {},
        _ => {},
    }
}

/// No message but an import makes two uses of one local port: saving a profile or a forward is
/// refused where it would, and everything else leaves the ports as they are. An import takes the
/// ports of a file as they are.
pub proof fn law_messages_keep_ports_apart(s: AppView, m: Message, fresh: NewIdsView)
    requires
        app_ok(s),
        forwards_ok(s),
        ids_are_new(s, fresh),
        no_forward_has(s.profiles, fresh.id),
        !(m matches Message::ImportRead(Ok(_))),
    ensures
        forwards_ok(step(s, m, fresh).0),
{
    let t = step(s, m, fresh).0;
    match m {
        Message::Tick(o) | Message::SetupTray(o) => {
            lemma_tick_keeps_ports(s, o.snapshots@, o.log_revision);
        },
        Message::DeleteProfile(_) => {
            lemma_profile_deletion_keeps_ports(s, m, fresh);
        },
        Message::ProfileFormSave => {
            lemma_profile_save_keeps_ports(s, m, fresh);
        },
        Message::FormSave => {
            lemma_forward_save_keeps_ports(s, m, fresh);
        },
        Message::DeleteForward(_, _) => {
            lemma_forward_deletion_keeps_ports(s, m, fresh);
        },
        Message::ToggleForward(_, _, _) => {
            lemma_toggle_keeps_ports(s, m, fresh);
        },
        Message::EditForward(_, _) => {
            lemma_forward_edit_keeps_ports(s, m, fresh);
        },
        _ => {
            lemma_other_messages(s, m, fresh);
            lemma_same_lists(s, t);
        },
    }
}

/// Whether the new forward ids are distinct, and none of them is in use.
pub open spec fn new_forward_ids(profiles: Seq<ProfileView>, fresh: Seq<FreshIdsView>) -> bool {
    &&& forall|a: int, k: int|
        0 <= a < fresh.len() && 0 <= k < fresh[a].forwards.len() ==> no_forward_has(
            profiles,
            #[trigger] fresh[a].forwards[k],
        )
    &&& forall|a: int, k: int, b: int, l: int|
        0 <= a < fresh.len() && 0 <= b < fresh.len() && 0 <= k < fresh[a].forwards.len() && 0 <= l
            < fresh[b].forwards.len() && (a != b || k != l) ==> (#[trigger] fresh[a].forwards[k])
            != (#[trigger] fresh[b].forwards[l])
}

/// Whether the id of each forward was in use before a merge or is one of the first `n` new ones.
spec fn ids_come_from(
    after: Seq<ProfileView>,
    profiles: Seq<ProfileView>,
    fresh: Seq<FreshIdsView>,
    n: int,
) -> bool {
    forall|j: int, l: int|
        0 <= j < after.len() && 0 <= l < after[j].forwards.len() ==> is_known_id(
            (#[trigger] after[j].forwards[l]).id,
            profiles,
            fresh,
            n,
        )
}

spec fn is_known_id(
    id: Seq<char>,
    profiles: Seq<ProfileView>,
    fresh: Seq<FreshIdsView>,
    n: int,
) -> bool {
    ||| !no_forward_has(profiles, id)
    ||| exists|a: int, k: int|
        0 <= a < n && 0 <= k < fresh[a].forwards.len() && #[trigger] fresh[a].forwards[k] == id
}

proof fn lemma_merge_forward_ids(
    profiles: Seq<ProfileView>,
    imported: Seq<ProfileView>,
    fresh: Seq<FreshIdsView>,
)
    requires
        forward_ids_apart(profiles),
        new_forward_ids(profiles, fresh),
        fresh.len() >= imported.len(),
        forall|i: int|
            0 <= i < imported.len() ==> (#[trigger] fresh[i]).forwards.len()
                >= imported[i].forwards.len(),
    ensures
        forward_ids_apart(merged(profiles, imported, fresh).profiles),
        ids_come_from(
            merged(profiles, imported, fresh).profiles,
            profiles,
            fresh,
            imported.len() as int,
        ),
    decreases imported.len(),
{
    let n = imported.len() as int;
    if n == 0 {
        assert forall|j: int, l: int|
            0 <= j < profiles.len() && 0 <= l < profiles[j].forwards.len() implies is_known_id(
            (#[trigger] profiles[j].forwards[l]).id,
            profiles,
            fresh,
            0,
        ) by {}
    } else {
        let init = imported.drop_last();
        let incoming = imported.last();
        assert(forall|i: int| 0 <= i < init.len() ==> #[trigger] init[i] == imported[i]);
        lemma_merge_forward_ids(profiles, init, fresh);
        let before = merged(profiles, init, fresh).profiles;
        let after = merged(profiles, imported, fresh).profiles;
        lemma_server_position(before, incoming.server_node_id, 0);
        let pos: int = match server_position(before, incoming.server_node_id, 0) {
            Some(i) => i,
            None => before.len() as int,
        };
        let ids = fresh[n - 1].forwards;
        assert(fresh[n - 1].forwards.len() >= imported[n - 1].forwards.len());
        assert(after[pos].forwards == with_ids(incoming.forwards, ids));
        assert forall|j: int, l: int|
            0 <= j < after.len() && j != pos && 0 <= l < after[j].forwards.len() implies (
        #[trigger] after[j].forwards[l]) == before[j].forwards[l] && is_known_id(
            after[j].forwards[l].id,
            profiles,
            fresh,
            n - 1,
        ) by {
            assert(after[j] == before[j]);
        }
        assert forall|l: int| 0 <= l < after[pos].forwards.len() implies (
        #[trigger] after[pos].forwards[l]).id == ids[l] by {}
        assert forall|j: int, l: int|
            0 <= j < after.len() && 0 <= l < after[j].forwards.len() implies is_known_id(
            (#[trigger] after[j].forwards[l]).id,
            profiles,
            fresh,
            n,
        ) by {
            if j == pos {
                assert(fresh[n - 1].forwards[l] == after[j].forwards[l].id);
            } else {
                lemma_known_id_grows(after[j].forwards[l].id, profiles, fresh, n - 1);
            }
        }
        assert forall|i: int, k: int, j: int, l: int|
            0 <= i < after.len() && 0 <= j < after.len() && 0 <= k < after[i].forwards.len() && 0
                <= l < after[j].forwards.len() && (i != j || k != l) implies (
        #[trigger] after[i].forwards[k]).id != (#[trigger] after[j].forwards[l]).id by {
            if i == pos && j == pos {
                assert(fresh[n - 1].forwards[k] != fresh[n - 1].forwards[l]);
            } else if i == pos {
                lemma_new_is_unknown(profiles, fresh, n - 1, k, after[j].forwards[l].id);
            } else if j == pos {
                lemma_new_is_unknown(profiles, fresh, n - 1, l, after[i].forwards[k].id);
            } else {
                assert(before[i].forwards[k].id != before[j].forwards[l].id);
            }
        }
    }
}

proof fn lemma_known_id_grows(
    id: Seq<char>,
    profiles: Seq<ProfileView>,
    fresh: Seq<FreshIdsView>,
    n: int,
)
    requires
        is_known_id(id, profiles, fresh, n),
    ensures
        is_known_id(id, profiles, fresh, n + 1),
{
    if no_forward_has(profiles, id) {
        let (a, k) = choose|a: int, k: int|
            0 <= a < n && 0 <= k < fresh[a].forwards.len() && #[trigger] fresh[a].forwards[k] == id;
        assert(fresh[a].forwards[k] == id);
    }
}

proof fn lemma_new_is_unknown(
    profiles: Seq<ProfileView>,
    fresh: Seq<FreshIdsView>,
    n: int,
    k: int,
    id: Seq<char>,
)
    requires
        new_forward_ids(profiles, fresh),
        0 <= n < fresh.len(),
        0 <= k < fresh[n].forwards.len(),
        is_known_id(id, profiles, fresh, n),
    ensures
        fresh[n].forwards[k] != id,
{
    assert(no_forward_has(profiles, fresh[n].forwards[k]));
    if no_forward_has(profiles, id) {
        let (a, l) = choose|a: int, l: int|
            0 <= a < n && 0 <= l < fresh[a].forwards.len() && #[trigger] fresh[a].forwards[l] == id;
        assert(fresh[a].forwards[l] != fresh[n].forwards[k]);
    }
}

/// A merge keeps the ids of all forwards apart, since imported forwards get new ones.
pub proof fn law_merge_keeps_forward_ids_apart(
    profiles: Seq<ProfileView>,
    imported: Seq<ProfileView>,
    fresh: Seq<FreshIdsView>,
)
    requires
        forward_ids_apart(profiles),
        new_forward_ids(profiles, fresh),
        fresh.len() >= imported.len(),
        forall|i: int|
            0 <= i < imported.len() ==> (#[trigger] fresh[i]).forwards.len()
                >= imported[i].forwards.len(),
    ensures
        forward_ids_apart(merged(profiles, imported, fresh).profiles),
{
    lemma_merge_forward_ids(profiles, imported, fresh);
}

} // verus!
