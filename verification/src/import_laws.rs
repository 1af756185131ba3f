//! What taking in imported profiles, and the start of the app, promise.

use vstd::prelude::*;
use vstd::string::*;

use crate::app::{set_forwards, step, without_errors_of, AppView, NewIdsView};
use crate::config::{profile_views, AuthKeyView, Profile, ProfileView};
use crate::forms::ProfileFormView;
use crate::merge::{law_merge_keeps_identity, lemma_merge_keeps_places, merged, profiles_ok};
use crate::merge_laws::{
    is_imported, is_imported_at, law_every_import_arrives, law_merge_names_the_replaced,
    servers_apart,
};
use crate::message::{EffectView, Message, SelectionView};
use crate::message_laws::{
    is_no_forward, is_no_profile, is_profile_at, lemma_no_profile, lemma_profile,
    lemma_without_errors,
};
use crate::text::decimal;

verus! {

/// Whether the forward with the id stands in a profile whose server an import names.
pub open spec fn is_replaced_forward(
    profiles: Seq<ProfileView>,
    imported: Seq<ProfileView>,
    id: Seq<char>,
) -> bool {
    exists|i: int|
        0 <= i < profiles.len() && is_imported(imported, (#[trigger] profiles[i]).server_node_id)
            && !is_no_forward(profiles[i].forwards, id)
}

proof fn lemma_without_errors_of(
    errors: Map<Seq<char>, Seq<char>>,
    profiles: Seq<ProfileView>,
    ids: Seq<Seq<char>>,
    id: Seq<char>,
)
    requires
        forall|a: int, b: int|
            0 <= a < b < profiles.len() ==> (#[trigger] profiles[a]).id != (
            #[trigger] profiles[b]).id,
    ensures
        ({
            let r = without_errors_of(errors, profiles, ids);
            &&& r.contains_key(id) <==> errors.contains_key(id) && forall|i: int|
                0 <= i < profiles.len() && ids.contains((#[trigger] profiles[i]).id)
                    ==> is_no_forward(profiles[i].forwards, id)
            &&& r.contains_key(id) ==> r[id] == errors[id]
        }),
    decreases ids.len(),
{
    if ids.len() > 0 {
        let front = ids.drop_last();
        let last = ids.last();
        assert(ids[ids.len() - 1] == last);
        lemma_without_errors_of(errors, profiles, front, id);
        assert forall|x: Seq<char>| ids.contains(x) <==> front.contains(x) || x == last by {
            if ids.contains(x) {
                let k = ids.index_of(x);
                if k < front.len() {
                    assert(front[k] == x);
                }
            }
            if front.contains(x) {
                let k = front.index_of(x);
                assert(ids[k] == x);
            }
        }
        if exists|i: int| 0 <= i < profiles.len() && (#[trigger] profiles[i]).id == last {
            let i = choose|i: int| 0 <= i < profiles.len() && (#[trigger] profiles[i]).id == last;
            assert forall|j: int| 0 <= j < i implies (#[trigger] profiles[j]).id != last by {
                assert(profiles[j].id != profiles[i].id);
            }
            lemma_profile(profiles, i, last);
            let rest = without_errors_of(errors, profiles, front);
            lemma_without_errors(rest, profiles[i].forwards, id);
            assert(ids.contains(profiles[i].id));
            assert forall|j: int|
                0 <= j < profiles.len() && (#[trigger] profiles[j]).id == last implies j == i by {
                if j < i {
                    assert(profiles[j].id != profiles[i].id);
                } else if i < j {
                    assert(profiles[i].id != profiles[j].id);
                }
            }
            if forall|j: int|
                0 <= j < profiles.len() && ids.contains((#[trigger] profiles[j]).id)
                    ==> is_no_forward(profiles[j].forwards, id) {
                assert(is_no_forward(profiles[i].forwards, id));
                assert forall|j: int| 0 <= j < profiles.len() && front.contains(
                    (#[trigger] profiles[j]).id,
                ) implies is_no_forward(profiles[j].forwards, id) by {
                    assert(ids.contains(profiles[j].id));
                }
            }
            if is_no_forward(profiles[i].forwards, id) && (forall|j: int|
                0 <= j < profiles.len() && front.contains((#[trigger] profiles[j]).id)
                    ==> is_no_forward(profiles[j].forwards, id)) {
                assert forall|j: int| 0 <= j < profiles.len() && ids.contains(
                    (#[trigger] profiles[j]).id,
                ) implies is_no_forward(profiles[j].forwards, id) by {
                    if !front.contains(profiles[j].id) {
                        assert(j == i);
                    }
                }
            }
        } else {
            assert(is_no_profile(profiles, last));
            lemma_no_profile(profiles, last);
            assert forall|j: int| 0 <= j < profiles.len() implies (ids.contains(
                (#[trigger] profiles[j]).id,
            ) <==> front.contains(profiles[j].id)) by {
                assert(profiles[j].id != last);
            }
        }
    }
}

proof fn lemma_told(profiles: Seq<ProfileView>, ids: Seq<Seq<char>>, id: Seq<char>, i: int)
    requires
        ids.contains(id),
        is_profile_at(profiles, i, id),
    ensures
        set_forwards(profiles, ids).contains(
            EffectView::SetForwards { profile_id: id, forwards: profiles[i].forwards },
        ),
    decreases ids.len(),
{
    let e = EffectView::SetForwards { profile_id: id, forwards: profiles[i].forwards };
    let front = ids.drop_last();
    let before = set_forwards(profiles, front);
    let all = set_forwards(profiles, ids);
    lemma_profile(profiles, i, id);
    if ids.last() == id {
        assert(all[all.len() - 1] == e);
    } else {
        let k = ids.index_of(id);
        assert(front[k] == id);
        lemma_told(profiles, front, id, i);
        let n = before.index_of(e);
        assert(all[n] == e);
    }
}

/// Taking in profiles gives each import a profile with its settings and forwards. The session of
/// each profile that was replaced gets the new forwards, and all is stored last. What failed in
/// the forwards that were replaced is forgotten, and nothing else. The form is closed, and a
/// notice counts what was added and what was replaced.
pub proof fn law_import_message_takes_profiles_in(
    s: AppView,
    imported: Vec<Profile>,
    fresh: NewIdsView,
    k: int,
    i: int,
    id: Seq<char>,
)
    requires
        profiles_ok(s.profiles),
        servers_apart(profile_views(imported@)),
        fresh.imports.len() >= imported@.len(),
        forall|a: int, b: int|
            0 <= a < s.profiles.len() && 0 <= b < fresh.imports.len() ==> (
            #[trigger] s.profiles[a]).id != (#[trigger] fresh.imports[b]).profile,
        0 <= k < imported@.len(),
        0 <= i < s.profiles.len(),
    ensures
        ({
            let all = profile_views(imported@);
            let (t, effects) = step(s, Message::ImportRead(Ok(imported)), fresh);
            let replaced = is_imported(all, s.profiles[i].server_node_id);
            let added = t.profiles.len() - s.profiles.len();
            &&& exists|j: int| #[trigger]
                is_imported_at(t.profiles, j, all[k], fresh.imports[k].forwards)
            &&& !replaced ==> t.profiles[i] == s.profiles[i]
            &&& replaced ==> effects.contains(
                EffectView::SetForwards {
                    profile_id: s.profiles[i].id,
                    forwards: t.profiles[i].forwards,
                },
            )
            &&& effects.last() == EffectView::Persist
            &&& t.forward_errors.contains_key(id) <==> s.forward_errors.contains_key(id)
                && !is_replaced_forward(s.profiles, all, id)
            &&& t.forward_errors.contains_key(id) ==> t.forward_errors[id] == s.forward_errors[id]
            &&& t.profile_form is None
            &&& 0 <= added <= all.len()
            &&& t.io_notice == Some(
                "Imported: "@ + decimal(added as nat) + " added, "@ + decimal(
                    (all.len() - added) as nat,
                ) + " replaced."@,
            )
            &&& t == (AppView {
                profiles: t.profiles,
                forward_errors: t.forward_errors,
                io_notice: t.io_notice,
                selection: t.selection,
                profile_form: t.profile_form,
                ..s
            })
        }),
{
    let all = profile_views(imported@);
    let (t, effects) = step(s, Message::ImportRead(Ok(imported)), fresh);
    let m = merged(s.profiles, all, fresh.imports);
    law_every_import_arrives(s.profiles, all, fresh.imports, k);
    law_merge_keeps_identity(s.profiles, all, fresh.imports);
    law_merge_names_the_replaced(s.profiles, all, fresh.imports, i);
    lemma_merge_keeps_places(s.profiles, all, fresh.imports);
    lemma_without_errors_of(s.forward_errors, s.profiles, m.replaced, id);
    assert(t.profiles[i].id == s.profiles[i].id);
    if is_imported(all, s.profiles[i].server_node_id) {
        assert forall|j: int| 0 <= j < i implies (#[trigger] t.profiles[j]).id
            != s.profiles[i].id by {
            assert(m.profiles[j].id == s.profiles[j].id);
            assert(s.profiles[j].id != s.profiles[i].id);
        }
        lemma_told(t.profiles, m.replaced, s.profiles[i].id, i);
        let told = EffectView::SetForwards {
            profile_id: s.profiles[i].id,
            forwards: t.profiles[i].forwards,
        };
        let sets = set_forwards(m.profiles, m.replaced);
        let n = sets.index_of(told);
        assert(effects[n] == told);
    }
    assert forall|j: int| 0 <= j < s.profiles.len() implies (m.replaced.contains(
        (#[trigger] s.profiles[j]).id,
    ) <==> is_imported(all, s.profiles[j].server_node_id)) by {
        law_merge_names_the_replaced(s.profiles, all, fresh.imports, j);
    }
    if is_replaced_forward(s.profiles, all, id) {
        let j = choose|j: int|
            0 <= j < s.profiles.len() && is_imported(
                all,
                (#[trigger] s.profiles[j]).server_node_id,
            ) && !is_no_forward(s.profiles[j].forwards, id);
        assert(m.replaced.contains(s.profiles[j].id));
    }
}

/// An import keeps the selection if the selected profile is still there, and otherwise selects
/// the first profile; the selected list of keys or the log gives way to it too.
pub proof fn law_import_keeps_the_selection(
    s: AppView,
    imported: Vec<Profile>,
    fresh: NewIdsView,
    i: int,
)
    requires
        0 <= i < s.profiles.len(),
        forall|j: int| 0 <= j < i ==> (#[trigger] s.profiles[j]).id != s.profiles[i].id,
    ensures
        ({
            let t = step(s, Message::ImportRead(Ok(imported)), fresh).0;
            &&& s.selection == SelectionView::Profile(s.profiles[i].id) ==> t.selection
                == s.selection
            &&& s.selection is Keys || s.selection is Logs ==> t.selection
                == SelectionView::Profile(s.profiles[0].id)
        }),
{
    let all = profile_views(imported@);
    let m = merged(s.profiles, all, fresh.imports);
    lemma_merge_keeps_places(s.profiles, all, fresh.imports);
    assert(m.profiles[0].id == s.profiles[0].id);
    assert(m.profiles[i].id == s.profiles[i].id);
    assert forall|j: int| 0 <= j < i implies (#[trigger] m.profiles[j]).id != s.profiles[i].id by {
        assert(m.profiles[j].id == s.profiles[j].id);
    }
    lemma_profile(m.profiles, i, s.profiles[i].id);
}

/// The app starts with what was stored, without a window, a notice or a question. The first
/// profile is selected; without one, the log is, and the form that adds a profile is open.
pub proof fn law_app_starts_with_what_was_stored(
    keys: Seq<AuthKeyView>,
    profiles: Seq<ProfileView>,
)
    ensures
        ({
            let s = AppView::initial(keys, profiles);
            &&& s.keys == keys && s.profiles == profiles
            &&& s.window is None && s.notice is None && s.io_notice is None
            &&& s.key_form is None && s.forward_form is None && s.conn_path_modal is None
            &&& s.confirm_delete is None && s.confirm_delete_key is None
            &&& s.confirm_export_key is None && s.log_filter is None && s.log_text.len() == 0
            &&& forall|id: Seq<char>| !#[trigger] s.forward_errors.contains_key(id)
            &&& forall|id: Seq<char>| !#[trigger] s.routed_caches.contains_key(id)
            &&& forall|id: Seq<char>| !#[trigger] s.snapshots.contains_key(id)
            &&& s.log_revision == u64::MAX
            &&& profiles.len() > 0 ==> s.selection == SelectionView::Profile(profiles[0].id)
                && s.profile_form is None
            &&& profiles.len() == 0 ==> s.selection == SelectionView::Logs && s.profile_form
                == Some(ProfileFormView::adding(Seq::empty()))
        }),
{
}

} // verus!
