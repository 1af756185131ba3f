//! What the desktop app promises of the reasons why forwards failed: each is kept for a forward
//! that is there.

use vstd::prelude::*;

use crate::app::{
    refreshed, step, with_errors, without_errors, without_errors_of, AppView, NewIdsView,
};
use crate::app_laws::lemma_refreshed;
use crate::app_port_laws::no_forward_has;
use crate::config::{profile_views, ProfileView};
use crate::form_laws::lemma_profile_at;
use crate::forms::profile_with_id;
use crate::forward::ForwardStatusView;
use crate::forwards::{failures, PortForwardView};
use crate::merge::{lemma_merge_keeps_places, merged, profiles_ok};
use crate::message::Message;
use crate::records::{law_position, law_without, position, without, HasId};
use crate::session::{RoutesView, SnapshotView};

verus! {

/// Whether each reason why a forward failed is that of a forward of some profile.
pub open spec fn errors_belong(
    errors: Map<Seq<char>, Seq<char>>,
    profiles: Seq<ProfileView>,
) -> bool {
    forall|id: Seq<char>| #[trigger] errors.contains_key(id) ==> !no_forward_has(profiles, id)
}

/// Whether one of the forwards has the given id.
spec fn has_forward(forwards: Seq<PortForwardView>, id: Seq<char>) -> bool {
    exists|k: int| 0 <= k < forwards.len() && (#[trigger] forwards[k]).id == id
}

proof fn lemma_forward_is_there(profiles: Seq<ProfileView>, j: int, id: Seq<char>)
    requires
        0 <= j < profiles.len(),
        has_forward(profiles[j].forwards, id),
    ensures
        !no_forward_has(profiles, id),
{
    let k = choose|k: int|
        0 <= k < profiles[j].forwards.len() && (#[trigger] profiles[j].forwards[k]).id == id;
    assert(profiles[j].forwards[k].id == id);
}

proof fn lemma_forward_is_somewhere(profiles: Seq<ProfileView>, id: Seq<char>) -> (j: int)
    requires
        !no_forward_has(profiles, id),
    ensures
        0 <= j < profiles.len(),
        has_forward(profiles[j].forwards, id),
{
    let (j, l) = choose|j: int, l: int|
        0 <= j < profiles.len() && 0 <= l < profiles[j].forwards.len() && (
        #[trigger] profiles[j].forwards[l]).id == id;
    assert(profiles[j].forwards[l].id == id);
    j
}

proof fn lemma_without_errors(
    errors: Map<Seq<char>, Seq<char>>,
    forwards: Seq<PortForwardView>,
    id: Seq<char>,
)
    requires
        without_errors(errors, forwards).contains_key(id),
    ensures
        errors.contains_key(id),
        !has_forward(forwards, id),
    decreases forwards.len(),
{
    if forwards.len() > 0 {
        let front = forwards.drop_last();
        lemma_without_errors(errors, front, id);
        assert forall|k: int| 0 <= k < forwards.len() implies (#[trigger] forwards[k]).id != id by {
            if k < front.len() {
                assert(front[k].id != id);
            }
        }
    }
}

proof fn lemma_without_errors_of(
    errors: Map<Seq<char>, Seq<char>>,
    profiles: Seq<ProfileView>,
    ids: Seq<Seq<char>>,
    id: Seq<char>,
)
    requires
        without_errors_of(errors, profiles, ids).contains_key(id),
    ensures
        errors.contains_key(id),
        forall|k: int|
            0 <= k < ids.len() ==> (profile_with_id(profiles, #[trigger] ids[k]) matches Some(p)
                ==> !has_forward(p.forwards, id)),
    decreases ids.len(),
{
    if ids.len() > 0 {
        let front = ids.drop_last();
        if let Some(p) = profile_with_id(profiles, ids.last()) {
            lemma_without_errors(without_errors_of(errors, profiles, front), p.forwards, id);
        }
        lemma_without_errors_of(errors, profiles, front, id);
        assert forall|k: int| 0 <= k < ids.len() implies (profile_with_id(
            profiles,
            #[trigger] ids[k],
        ) matches Some(p) ==> !has_forward(p.forwards, id)) by {
            if k < front.len() {
                assert(front[k] == ids[k]);
            }
        }
    }
}

proof fn lemma_with_errors(
    errors: Map<Seq<char>, Seq<char>>,
    forwards: Seq<PortForwardView>,
    statuses: Seq<ForwardStatusView>,
    id: Seq<char>,
)
    requires
        with_errors(errors, failures(forwards, statuses)).contains_key(id),
    ensures
        errors.contains_key(id) || has_forward(forwards, id),
    decreases forwards.len(),
{
    if forwards.len() > 0 {
        let front = forwards.drop_last();
        let f = forwards.last();
        let before = failures(front, statuses);
        let after = failures(forwards, statuses);
        if after.len() > before.len() {
            assert(after.drop_last() == before);
        }
        if f.id == id {
            assert(forwards[forwards.len() - 1].id == id);
        } else {
            lemma_with_errors(errors, front, statuses, id);
            if has_forward(front, id) {
                let k = choose|k: int| 0 <= k < front.len() && (#[trigger] front[k]).id == id;
                assert(forwards[k].id == id);
            }
        }
    }
}

proof fn lemma_refreshed_errors(
    profiles: Seq<ProfileView>,
    snapshots: Map<Seq<char>, SnapshotView>,
    errors: Map<Seq<char>, Seq<char>>,
    caches: Map<Seq<char>, RoutesView>,
    id: Seq<char>,
)
    requires
        refreshed(profiles, snapshots, errors, caches).errors.contains_key(id),
    ensures
        errors.contains_key(id) || !no_forward_has(profiles, id),
    decreases profiles.len(),
{
    if profiles.len() > 0 {
        let front = profiles.drop_last();
        let p = profiles.last();
        let before = refreshed(front, snapshots, errors, caches);
        if snapshots.contains_key(p.id) {
            lemma_with_errors(before.errors, p.forwards, snapshots[p.id].forwards, id);
            if has_forward(p.forwards, id) {
                lemma_forward_is_there(profiles, profiles.len() - 1, id);
            }
        }
        if before.errors.contains_key(id) {
            lemma_refreshed_errors(front, snapshots, errors, caches, id);
            if !no_forward_has(front, id) {
                let j = lemma_forward_is_somewhere(front, id);
                assert(profiles[j] == front[j]);
                lemma_forward_is_there(profiles, j, id);
            }
        }
    }
}

proof fn lemma_tick(s: AppView, snapshots: Map<Seq<char>, SnapshotView>, revision: u64)
    requires
        errors_belong(s.forward_errors, s.profiles),
    ensures
        ({
            let t = s.refreshing(snapshots, revision).0;
            errors_belong(t.forward_errors, t.profiles)
        }),
{
    let t = s.refreshing(snapshots, revision).0;
    lemma_refreshed(s.profiles, snapshots, s.forward_errors, s.routed_caches);
    assert forall|id: Seq<char>| #[trigger]
        t.forward_errors.contains_key(id) implies !no_forward_has(t.profiles, id) by {
        lemma_refreshed_errors(
            s.profiles,
            snapshots,
            s.forward_errors,
            s.routed_caches,
            id,
        );
        let j = lemma_forward_is_somewhere(s.profiles, id);
        let before = s.profiles[j].forwards;
        let after = t.profiles[j].forwards;
        let k = choose|k: int| 0 <= k < before.len() && (#[trigger] before[k]).id == id;
        assert(after[k].id == id);
        lemma_forward_is_there(t.profiles, j, id);
    }
}

proof fn lemma_profile_deletion(s: AppView, id: Seq<char>)
    requires
        errors_belong(s.forward_errors, s.profiles),
    ensures
        ({
            let t = s.deleting_profile(id).0;
            errors_belong(t.forward_errors, t.profiles)
        }),
{
    let t = s.deleting_profile(id).0;
    law_position(s.profiles, id);
    if s.confirm_delete == Some(id) && position(s.profiles, id) is Some {
        let pos = position(s.profiles, id)->0;
        assert forall|e: Seq<char>| #[trigger]
            t.forward_errors.contains_key(e) implies !no_forward_has(t.profiles, e) by {
            lemma_without_errors(s.forward_errors, s.profiles[pos].forwards, e);
            let j = lemma_forward_is_somewhere(s.profiles, e);
            let k = if j < pos {
                j
            } else {
                j - 1
            };
            assert(t.profiles[k] == s.profiles[j]);
            lemma_forward_is_there(t.profiles, k, e);
        }
    }
}

proof fn lemma_import(s: AppView, m: Message, fresh: NewIdsView)
    requires
        profiles_ok(s.profiles),
        errors_belong(s.forward_errors, s.profiles),
        m matches Message::ImportRead(Ok(_)),
    ensures
        ({
            let t = step(s, m, fresh).0;
            errors_belong(t.forward_errors, t.profiles)
        }),
{
    if let Message::ImportRead(Ok(list)) = m {
        let t = step(s, m, fresh).0;
        let imported = profile_views(list@);
        let r = merged(s.profiles, imported, fresh.imports);
        lemma_merge_keeps_places(s.profiles, imported, fresh.imports);
        assert forall|e: Seq<char>| #[trigger]
            t.forward_errors.contains_key(e) implies !no_forward_has(t.profiles, e) by {
            lemma_without_errors_of(s.forward_errors, s.profiles, r.replaced, e);
            let j = lemma_forward_is_somewhere(s.profiles, e);
            let own = s.profiles[j].id;
            if r.replaced.contains(own) {
                let k = r.replaced.index_of(own);
                assert(r.replaced[k] == own);
                lemma_profile_at(s.profiles, own);
                let p = profile_with_id(s.profiles, own)->0;
                let i = choose|i: int|
                    0 <= i < s.profiles.len() && #[trigger] s.profiles[i] == p && p.id == own && (
                    forall|n: int| 0 <= n < i ==> (#[trigger] s.profiles[n]).id != own);
                if i < j {
                    assert(s.profiles[i].id != s.profiles[j].id);
                }
                assert(i == j);
                assert(false);
            }
            assert(r.profiles[j] == s.profiles[j]);
            lemma_forward_is_there(t.profiles, j, e);
        }
    }
}

proof fn lemma_profile_save(s: AppView, fresh: Seq<char>)
    requires
        profiles_ok(s.profiles),
        errors_belong(s.forward_errors, s.profiles),
        forall|i: int| 0 <= i < s.profiles.len() ==> (#[trigger] s.profiles[i]).id != fresh,
    ensures
        ({
            let t = s.saving_profile(fresh).0;
            errors_belong(t.forward_errors, t.profiles)
        }),
{
    let t = s.saving_profile(fresh).0;
    if let Some(form) = s.profile_form {
        if let Ok(p) = form.checked(s.profiles, s.keys, fresh) {
            law_position(s.profiles, p.id);
            lemma_profile_at(s.profiles, p.id);
            if let Some(pos) = position(s.profiles, p.id) {
                assert(s.profiles[pos].record_id() == s.profiles[pos].id);
                assert(form.editing_id == Some(p.id));
                let kept = profile_with_id(s.profiles, p.id)->0;
                let k = choose|k: int|
                    0 <= k < s.profiles.len() && #[trigger] s.profiles[k] == kept && kept.id
                        == p.id && (forall|j: int|
                        0 <= j < k ==> (#[trigger] s.profiles[j]).id != p.id);
                if k != pos {
                    assert(s.profiles[k].id != s.profiles[pos].id);
                }
                assert(p.forwards == s.profiles[pos].forwards);
            }
            assert forall|e: Seq<char>| #[trigger]
                t.forward_errors.contains_key(e) implies !no_forward_has(t.profiles, e) by {
                let j = lemma_forward_is_somewhere(s.profiles, e);
                assert(t.profiles[j].forwards == s.profiles[j].forwards);
                lemma_forward_is_there(t.profiles, j, e);
            }
        }
    }
}

proof fn lemma_forward_messages(s: AppView, m: Message, fresh: NewIdsView)
    requires
        errors_belong(s.forward_errors, s.profiles),
        m is FormSave || m is DeleteForward || m is ToggleForward,
    ensures
        ({
            let t = step(s, m, fresh).0;
            errors_belong(t.forward_errors, t.profiles)
        }),
{
    let t = step(s, m, fresh).0;
    assert forall|e: Seq<char>| #[trigger]
        t.forward_errors.contains_key(e) implies !no_forward_has(t.profiles, e) by {
        assert(s.forward_errors.contains_key(e));
        let j = lemma_forward_is_somewhere(s.profiles, e);
        let before = s.profiles[j].forwards;
        let k = choose|k: int| 0 <= k < before.len() && (#[trigger] before[k]).id == e;
        match m {
            Message::FormSave => {
                if let Some((id, form)) = s.forward_form {
                    law_position(s.profiles, id);
                    if let Ok(forward) = form.checked(s.profiles, fresh.id) {
                        if let Some(pos) = position(s.profiles, id) {
                            law_position(s.profiles[pos].forwards, forward.id);
                        }
                    }
                }
                assert(t.profiles[j].forwards[k].id == e);
            },
            Message::DeleteForward(id, forward_id) => {
                law_position(s.profiles, id@);
                law_without(before, forward_id@);
                if t.profiles[j] != s.profiles[j] {
                    assert(before[k].record_id() != forward_id@);
                    let after = without(before, forward_id@);
                    let n = after.index_of(before[k]);
                    assert(t.profiles[j].forwards[n].id == e);
                } else {
                    assert(t.profiles[j].forwards[k].id == e);
                }
            },
            Message::ToggleForward(id, forward_id, _) => {
                law_position(s.profiles, id@);
                if let Some(pos) = position(s.profiles, id@) {
                    law_position(s.profiles[pos].forwards, forward_id@);
                }
                assert(t.profiles[j].forwards[k].id == e);
            },
            _ => {},
        }
        lemma_forward_is_there(t.profiles, j, e);
    }
}

spec fn touches_errors(m: Message) -> bool {
    match m {
        Message::Tick(_)
        | Message::SetupTray(_)
        | Message::DeleteProfile(_)
        | Message::ProfileFormSave
        | Message::FormSave
        | Message::DeleteForward(_, _)
        | Message::ToggleForward(_, _, _)
        | Message::ImportRead(Ok(_)) => true,
        _ => false,
    }
}

proof fn lemma_menu(s: AppView, id: Seq<char>)
    ensures
        s.menu(id).0.profiles == s.profiles,
        s.menu(id).0.forward_errors == s.forward_errors,
{
}

proof fn lemma_other_messages(s: AppView, m: Message, fresh: NewIdsView)
    requires
        !touches_errors(m),
    ensures
        step(s, m, fresh).0.profiles == s.profiles,
        step(s, m, fresh).0.forward_errors == s.forward_errors,
{
    match m {
        Message::TrayMenu(id) => {
            lemma_menu(s, id@);
        },
        Message::Connect(_) => {},
        Message::NewKeyCreate(_) => {},
        Message::KeyFormSave(_) => {},
        Message::DeleteKey(_) | Message::ExportKey(_) => {},
        Message::EditKey(_) | Message::EditProfile(_) | Message::EditForward(_, _) => {},
        _ => {},
    }
}

/// The reason why a forward failed is forgotten when the forward is removed: by deleting it, by
/// deleting its profile, or by an import that replaces it. So after any message each reason is
/// that of a forward that is there.
pub proof fn law_errors_go_with_their_forwards(s: AppView, m: Message, fresh: NewIdsView)
    requires
        profiles_ok(s.profiles),
        errors_belong(s.forward_errors, s.profiles),
        forall|i: int| 0 <= i < s.profiles.len() ==> (#[trigger] s.profiles[i]).id != fresh.id,
    ensures
        errors_belong(step(s, m, fresh).0.forward_errors, step(s, m, fresh).0.profiles),
{
    match m {
        Message::Tick(o) | Message::SetupTray(o) => {
            lemma_tick(s, o.snapshots@, o.log_revision);
        },
        Message::DeleteProfile(id) => {
            lemma_profile_deletion(s, id@);
        },
        Message::ProfileFormSave => {
            lemma_profile_save(s, fresh.id);
        },
        Message::ImportRead(Ok(_)) => {
            lemma_import(s, m, fresh);
        },
        Message::FormSave | Message::DeleteForward(_, _) | Message::ToggleForward(_, _, _) => {
            lemma_forward_messages(s, m, fresh);
        },
        _ => {
            lemma_other_messages(s, m, fresh);
        },
    }
}

/// The app starts without any such reason, and a forward that is switched on, by its switch or by
/// saving its form, has none.
pub proof fn law_a_new_attempt_forgets_the_failure(
    s: AppView,
    profile_id: String,
    forward_id: String,
    fresh: NewIdsView,
)
    ensures
        AppView::initial(s.keys, s.profiles).forward_errors == Map::<Seq<char>, Seq<char>>::empty(),
        ({
            let m = Message::ToggleForward(profile_id, forward_id, true);
            step(s, m, fresh).1.len() > 0 ==> !step(s, m, fresh).0.forward_errors.contains_key(
                forward_id@,
            )
        }),
        ({
            let m = Message::FormSave;
            step(s, m, fresh).1.len() > 0 ==> (s.forward_form matches Some((_, form)) && (
            form.checked(s.profiles, fresh.id) matches Ok(f) && (f.enabled ==> !step(
                s,
                m,
                fresh,
            ).0.forward_errors.contains_key(f.id))))
        }),
{
}

} // verus!
