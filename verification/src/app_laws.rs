//! What the desktop app promises of its state, whatever message it is given.

use vstd::prelude::*;

use crate::app::{key_user, refreshed, set_forwards, step, AppView, NewIdsView, MENU_CONNECT_PREFIX};
use crate::config::{key_with_id, profile_views, AuthKeyView, ProfileView};
use crate::form_laws::{
    law_normalized_name_is_valid, law_saving_a_key_keeps_rules, law_saving_a_profile_keeps_rules,
    lemma_saved_keys,
};
use crate::forms::profile_with_id;
use crate::forward::ForwardStatusView;
use crate::forwards::{checked_text, failed_off, failures, has_failed, PortForwardView};
use crate::key_form::key_name_taken;
use crate::merge::{law_merge_keeps_identity, law_merge_keeps_rules, profiles_ok};
use crate::message::{EffectView, Message};
use crate::ports::quoted;
use crate::records::{law_position, law_without, position, saved, without, HasId};
use crate::roster::valid_name;
use crate::session::{RoutesView, SnapshotView};
use crate::store::{keys_ok, saved as document};
use crate::text::after_prefix;

verus! {

/// Whether keys and profiles keep their rules, and no open form edits a key without an id.
pub open spec fn app_ok(s: AppView) -> bool {
    &&& profiles_ok(s.profiles)
    &&& keys_ok(s.keys)
    &&& s.key_form matches Some(form) ==> form.editing_id matches Some(id) ==> id.len() > 0
}

/// Whether the new ids are new: not empty, in use nowhere, and distinct.
pub open spec fn ids_are_new(s: AppView, fresh: NewIdsView) -> bool {
    &&& fresh.id.len() > 0
    &&& forall|i: int| 0 <= i < s.keys.len() ==> (#[trigger] s.keys[i]).id != fresh.id
    &&& forall|i: int, j: int|
        0 <= i < s.profiles.len() && 0 <= j < fresh.imports.len() ==> (#[trigger] s.profiles[i]).id
            != (#[trigger] fresh.imports[j]).profile
    &&& forall|i: int, j: int|
        0 <= i < j < fresh.imports.len() ==> (#[trigger] fresh.imports[i]).profile != (
        #[trigger] fresh.imports[j]).profile
}

/// Whether a message brings what it may bring: a keypair that is not in the list, and imported
/// profiles with well-formed names, no more than there are new ids for.
pub open spec fn message_fits(s: AppView, m: Message, fresh: NewIdsView) -> bool {
    match m {
        Message::NewKeyCreate(generated) => forall|i: int|
            0 <= i < s.keys.len() ==> (#[trigger] s.keys[i]).public_key != generated.public_key@,
        Message::ImportRead(Ok(imported)) => {
            &&& fresh.imports.len() >= imported@.len()
            &&& s.profiles.len() + imported@.len() <= usize::MAX
            &&& forall|i: int|
                0 <= i < imported@.len() ==> valid_name(
                    (#[trigger] profile_views(imported@)[i]).name,
                )
        },
        _ => true,
    }
}

/// The app starts with keys and profiles that keep their rules if those that were stored do.
pub proof fn law_start_keeps_rules(keys: Seq<AuthKeyView>, profiles: Seq<ProfileView>)
    requires
        keys_ok(keys),
        profiles_ok(profiles),
    ensures
        app_ok(AppView::initial(keys, profiles)),
{
}

proof fn lemma_removed_keeps_rules(profiles: Seq<ProfileView>, pos: int)
    requires
        profiles_ok(profiles),
        0 <= pos < profiles.len(),
    ensures
        profiles_ok(profiles.remove(pos)),
{
    let r = profiles.remove(pos);
    assert forall|i: int| 0 <= i < r.len() implies valid_name((#[trigger] r[i]).name) by {
        let k = if i < pos {
            i
        } else {
            i + 1
        };
        assert(valid_name(profiles[k].name));
    }
    assert forall|i: int, j: int| 0 <= i < j < r.len() implies (#[trigger] r[i]).id != (
    #[trigger] r[j]).id && r[i].name != r[j].name && r[i].server_node_id != r[j].server_node_id by {
        let k = if i < pos {
            i
        } else {
            i + 1
        };
        let l = if j < pos {
            j
        } else {
            j + 1
        };
        assert(profiles[k].id != profiles[l].id);
    }
}

/// Whether two lists hold the same profiles but for their forwards.
pub open spec fn same_but_forwards(a: Seq<ProfileView>, b: Seq<ProfileView>) -> bool {
    a.len() == b.len() && forall|i: int|
        0 <= i < a.len() ==> (#[trigger] a[i]) == (ProfileView { forwards: a[i].forwards, ..b[i] })
}

proof fn lemma_same_keeps_rules(a: Seq<ProfileView>, b: Seq<ProfileView>)
    requires
        profiles_ok(b),
        same_but_forwards(a, b),
    ensures
        profiles_ok(a),
{
    assert forall|i: int| 0 <= i < a.len() implies valid_name((#[trigger] a[i]).name) by {
        assert(valid_name(b[i].name));
    }
    assert forall|i: int, j: int| 0 <= i < j < a.len() implies (#[trigger] a[i]).id != (
    #[trigger] a[j]).id && a[i].name != a[j].name && a[i].server_node_id != a[j].server_node_id by {
        assert(b[i].id != b[j].id);
    }
}

pub proof fn lemma_refreshed(
    profiles: Seq<ProfileView>,
    snapshots: Map<Seq<char>, SnapshotView>,
    errors: Map<Seq<char>, Seq<char>>,
    caches: Map<Seq<char>, RoutesView>,
)
    ensures
        ({
            let r = refreshed(profiles, snapshots, errors, caches);
            &&& same_but_forwards(r.profiles, profiles)
            &&& forall|i: int|
                0 <= i < profiles.len() ==> (#[trigger] r.profiles[i]).forwards == (
                if snapshots.contains_key(profiles[i].id) {
                    failed_off(profiles[i].forwards, snapshots[profiles[i].id].forwards)
                } else {
                    profiles[i].forwards
                })
            &&& r.failed_in.len() == 0 ==> r.profiles == profiles
        }),
    decreases profiles.len(),
{
    if profiles.len() > 0 {
        let front = profiles.drop_last();
        let p = profiles.last();
        lemma_refreshed(front, snapshots, errors, caches);
        let before = refreshed(front, snapshots, errors, caches);
        let r = refreshed(profiles, snapshots, errors, caches);
        assert forall|i: int| 0 <= i < r.profiles.len() implies (#[trigger] r.profiles[i]) == (
        ProfileView { forwards: r.profiles[i].forwards, ..profiles[i] }) by {
            if i < front.len() {
                assert(r.profiles[i] == before.profiles[i]);
                assert(front[i] == profiles[i]);
            }
        }
        assert forall|i: int| 0 <= i < profiles.len() implies (
        #[trigger] r.profiles[i]).forwards == (if snapshots.contains_key(profiles[i].id) {
            failed_off(profiles[i].forwards, snapshots[profiles[i].id].forwards)
        } else {
            profiles[i].forwards
        }) by {
            if i < front.len() {
                assert(r.profiles[i] == before.profiles[i]);
                assert(front[i] == profiles[i]);
            }
        }
        if r.failed_in.len() == 0 {
            if snapshots.contains_key(p.id) {
                lemma_no_failures(p.forwards, snapshots[p.id].forwards);
            }
            assert(r.profiles.last() == p);
            assert(r.profiles == profiles);
        }
    } else {
        assert(refreshed(profiles, snapshots, errors, caches).profiles == profiles);
    }
}

proof fn lemma_no_failures(
    forwards: Seq<PortForwardView>,
    statuses: Seq<ForwardStatusView>,
)
    requires
        failures(forwards, statuses).len() == 0,
    ensures
        failed_off(forwards, statuses) == forwards,
    decreases forwards.len(),
{
    if forwards.len() > 0 {
        let front = forwards.drop_last();
        lemma_no_failures(front, statuses);
        assert(failed_off(forwards, statuses).drop_last() == failed_off(front, statuses));
        assert forall|i: int| 0 <= i < forwards.len() implies failed_off(forwards, statuses)[i]
            == forwards[i] by {
            if i < front.len() {
                assert(failed_off(front, statuses)[i] == front[i]);
            }
        }
    }
    assert(failed_off(forwards, statuses) == forwards);
}

proof fn lemma_without_keeps_rules(keys: Seq<AuthKeyView>, id: Seq<char>)
    requires
        keys_ok(keys),
    ensures
        keys_ok(without(keys, id)),
    decreases keys.len(),
{
    if keys.len() > 0 {
        let front = keys.drop_last();
        let r = without(keys, id);
        let rest = without(front, id);
        assert(keys_ok(front)) by {
            assert forall|i: int| 0 <= i < front.len() implies valid_name((#[trigger] front[i]).name)
                && front[i].id.len() > 0 by {
                assert(valid_name(keys[i].name));
            }
            assert forall|i: int, j: int| 0 <= i < j < front.len() implies (
            #[trigger] front[i]).id != (#[trigger] front[j]).id && front[i].name != front[j].name
                && front[i].public_key != front[j].public_key by {
                assert(keys[i].id != keys[j].id);
            }
        }
        lemma_without_keeps_rules(front, id);
        law_without(front, id);
        assert forall|i: int| 0 <= i < r.len() implies valid_name((#[trigger] r[i]).name)
            && r[i].id.len() > 0 by {
            if i < rest.len() {
                assert(valid_name(rest[i].name));
            } else {
                assert(valid_name(keys[keys.len() - 1].name));
            }
        }
        assert forall|i: int, j: int| 0 <= i < j < r.len() implies (#[trigger] r[i]).id != (
        #[trigger] r[j]).id && r[i].name != r[j].name && r[i].public_key != r[j].public_key by {
            if j < rest.len() {
                assert(rest[i].id != rest[j].id);
            } else {
                assert(rest[i].record_id() != id);
                let k = front.index_of(rest[i]);
                assert(keys[k].id != keys[keys.len() - 1].id);
            }
        }
    }
}

proof fn lemma_found_key(keys: Seq<AuthKeyView>, id: Seq<char>)
    requires
        keys_ok(keys),
    ensures
        key_with_id(keys, id) matches Some(k) ==> k.id.len() > 0,
    decreases keys.len(),
{
    reveal_with_fuel(key_with_id, 2);
    if keys.len() > 0 {
        let rest = keys.drop_first();
        assert(valid_name(keys[0].name) && keys[0].id.len() > 0);
        assert(keys_ok(rest)) by {
            assert forall|i: int| 0 <= i < rest.len() implies valid_name((#[trigger] rest[i]).name)
                && rest[i].id.len() > 0 by {
                assert(valid_name(keys[i + 1].name));
            }
            assert forall|i: int, j: int| 0 <= i < j < rest.len() implies (#[trigger] rest[i]).id
                != (#[trigger] rest[j]).id && rest[i].name != rest[j].name && rest[i].public_key
                != rest[j].public_key by {
                assert(keys[i + 1].id != keys[j + 1].id);
            }
        }
        lemma_found_key(rest, id);
    }
}

/// Connecting a profile changes neither keys nor profiles, and opens no form without an id.
proof fn lemma_connecting(s: AppView, id: Seq<char>)
    requires
        app_ok(s),
    ensures
        app_ok(s.connecting(id).0),
        s.connecting(id).0.profiles == s.profiles,
        s.connecting(id).0.keys == s.keys,
{
    if let Some(p) = profile_with_id(s.profiles, id) {
        lemma_found_key(s.keys, p.auth_key_id);
    }
}

/// Every message keeps the rules for keys and profiles: well-formed names, and no two keys or
/// profiles that share an id, a name, a public half or a server. New ids must be new, and a new
/// keypair not in the list.
pub proof fn law_messages_keep_rules(s: AppView, m: Message, fresh: NewIdsView)
    requires
        app_ok(s),
        ids_are_new(s, fresh),
        message_fits(s, m, fresh),
    ensures
        app_ok(step(s, m, fresh).0),
{
    let t = step(s, m, fresh).0;
    match m {
        Message::Tick(o) | Message::SetupTray(o) => {
            lemma_refreshed(s.profiles, o.snapshots@, s.forward_errors, s.routed_caches);
            lemma_same_keeps_rules(t.profiles, s.profiles);
        },
        Message::TrayMenu(id) => {
            lemma_menu(s, id@);
        },
        Message::Connect(id) => {
            lemma_connecting(s, id@);
        },
        Message::DeleteProfile(id) => {
            law_position(s.profiles, id@);
            if let Some(pos) = position(s.profiles, id@) {
                lemma_removed_keeps_rules(s.profiles, pos);
            }
        },
        Message::ImportRead(Ok(imported)) => {
            law_merge_keeps_rules(s.profiles, profile_views(imported@), fresh.imports);
        },
        Message::NewKeyCreate(generated) => {
            if t.keys != s.keys {
                lemma_created_key(s, m, fresh);
            }
        },
        Message::EditKey(id) => {
            lemma_found_key(s.keys, id@);
        },
        Message::DeleteKey(id) => {
            lemma_without_keeps_rules(s.keys, id@);
        },
        Message::KeyFormSave(parsed) => {
            if let Some(form) = s.key_form {
                let p = checked_text(parsed);
                if let Ok(key) = form.checked(s.keys, p, fresh.id) {
                    law_saving_a_key_keeps_rules(form, s.keys, p, fresh.id, key);
                }
            }
        },
        Message::ProfileFormSave => {
            if let Some(form) = s.profile_form {
                if let Ok(profile) = form.checked(s.profiles, s.keys, fresh.id) {
                    law_saving_a_profile_keeps_rules(
                        form,
                        s.profiles,
                        s.keys,
                        fresh.id,
                        profile,
                    );
                }
            }
        },
        Message::FormSave | Message::DeleteForward(_, _) | Message::ToggleForward(_, _, _) => {
            lemma_forward_messages(s, m, fresh);
            lemma_same_keeps_rules(t.profiles, s.profiles);
        },
        _ => {},
    }
}

proof fn lemma_menu(s: AppView, id: Seq<char>)
    requires
        app_ok(s),
    ensures
        app_ok(s.menu(id).0),
        s.menu(id).0.profiles == s.profiles,
        s.menu(id).0.keys == s.keys,
{
    if let Some(profile_id) = after_prefix(id, MENU_CONNECT_PREFIX@) {
        lemma_connecting(s, profile_id);
    }
}

proof fn lemma_created_key(s: AppView, m: Message, fresh: NewIdsView)
    requires
        app_ok(s),
        ids_are_new(s, fresh),
        message_fits(s, m, fresh),
        m is NewKeyCreate,
        step(s, m, fresh).0.keys != s.keys,
    ensures
        keys_ok(step(s, m, fresh).0.keys),
{
    let t = step(s, m, fresh).0;
    let form = s.profile_form->0;
    let buffer = form.new_key_name->0;
    law_normalized_name_is_valid(buffer);
    let key = t.keys.last();
    law_position(s.keys, fresh.id);
    if let Some(k) = position(s.keys, fresh.id) {
        assert(s.keys[k].id != fresh.id);
    }
    assert(saved(s.keys, key) == t.keys);
    assert forall|i: int| 0 <= i < s.keys.len() && (#[trigger] s.keys[i]).id
        != key.id implies s.keys[i].name != key.name && s.keys[i].public_key != key.public_key by {
        if s.keys[i].name == key.name {
            assert(key_name_taken(s.keys, key.name, None));
        }
    }
    lemma_saved_keys(s.keys, key);
}

/// A message about a forward changes nothing of the profiles but forwards.
proof fn lemma_forward_messages(s: AppView, m: Message, fresh: NewIdsView)
    requires
        m is FormSave || m is DeleteForward || m is ToggleForward,
    ensures
        same_but_forwards(step(s, m, fresh).0.profiles, s.profiles),
        step(s, m, fresh).0.keys == s.keys,
{
    match m {
        Message::FormSave => {
            if let Some((id, form)) = s.forward_form {
                law_position(s.profiles, id);
            }
        },
        Message::DeleteForward(id, _) => {
            law_position(s.profiles, id@);
        },
        Message::ToggleForward(id, _, _) => {
            law_position(s.profiles, id@);
        },
        _ => {},
    }
}

/// A key that a profile refers to is never taken out of the list, by no message.
pub proof fn law_used_keys_stay(s: AppView, m: Message, fresh: NewIdsView, i: int)
    requires
        0 <= i < s.keys.len(),
        key_user(s.profiles, s.keys[i].id) is Some,
    ensures
        exists|k: int|
            0 <= k < step(s, m, fresh).0.keys.len() && (#[trigger] step(s, m, fresh).0.keys[k]).id
                == s.keys[i].id,
{
    let t = step(s, m, fresh).0;
    match m {
        Message::DeleteKey(id) => {
            law_without(s.keys, id@);
            if t.keys != s.keys {
                assert(s.keys[i].record_id() != id@);
                let k = without(s.keys, id@).index_of(s.keys[i]);
                assert(t.keys[k].id == s.keys[i].id);
            } else {
                assert(t.keys[i].id == s.keys[i].id);
            }
        },
        Message::KeyFormSave(parsed) => {
            if let Some(form) = s.key_form {
                if let Ok(key) = form.checked(
                    s.keys,
                    checked_text(parsed),
                    fresh.id,
                ) {
                    law_position(s.keys, key.id);
                }
            }
            assert(t.keys[i].id == s.keys[i].id);
        },
        Message::TrayMenu(id) => {
            assert(t.keys == s.keys) by {
                lemma_menu_keeps_lists(s, id@);
            }
            assert(t.keys[i].id == s.keys[i].id);
        },
        _ => {
            assert(t.keys[i].id == s.keys[i].id);
        },
    }
}

proof fn lemma_menu_keeps_lists(s: AppView, id: Seq<char>)
    ensures
        s.menu(id).0.profiles == s.profiles,
        s.menu(id).0.keys == s.keys,
{
}

/// Nothing is deleted at the first click: a profile or key only goes when it was asked for twice
/// in a row, and then only that one.
pub proof fn law_deletion_takes_two_clicks(s: AppView, m: Message, fresh: NewIdsView)
    requires
        fresh.imports.len() >= (match m {
            Message::ImportRead(Ok(imported)) => imported@.len(),
            _ => 0,
        }),
    ensures
        step(s, m, fresh).0.profiles.len() < s.profiles.len() ==> (m matches Message::DeleteProfile(id)
            && s.confirm_delete == Some(id@) && step(s, m, fresh).0.profiles.len()
            == s.profiles.len() - 1),
        step(s, m, fresh).0.keys.len() < s.keys.len() ==> (m matches Message::DeleteKey(id)
            && s.confirm_delete_key == Some(id@) && step(s, m, fresh).0.keys == without(s.keys, id@)),
{
    match m {
        Message::Tick(o) | Message::SetupTray(o) => {
            lemma_refreshed(s.profiles, o.snapshots@, s.forward_errors, s.routed_caches);
        },
        Message::TrayMenu(id) => {
            lemma_menu_keeps_lists(s, id@);
        },
        Message::DeleteProfile(id) => {
            law_position(s.profiles, id@);
        },
        Message::ImportRead(Ok(imported)) => {
            law_merge_keeps_identity(
                s.profiles,
                profile_views(imported@),
                fresh.imports,
            );
        },
        Message::KeyFormSave(parsed) => {
            if let Some(form) = s.key_form {
                if let Ok(key) = form.checked(
                    s.keys,
                    checked_text(parsed),
                    fresh.id,
                ) {
                    law_position(s.keys, key.id);
                }
            }
        },
        Message::ProfileFormSave => {
            if let Some(form) = s.profile_form {
                if let Ok(profile) = form.checked(s.profiles, s.keys, fresh.id) {
                    law_position(s.profiles, profile.id);
                }
            }
        },
        Message::FormSave | Message::DeleteForward(_, _) | Message::ToggleForward(_, _, _) => {
            lemma_forward_messages(s, m, fresh);
        },
        _ => {},
    }
}

/// Whether a profile refers to a key.
pub open spec fn is_used(profiles: Seq<ProfileView>, id: Seq<char>) -> bool {
    exists|i: int| 0 <= i < profiles.len() && (#[trigger] profiles[i]).auth_key_id == id
}

proof fn lemma_key_user(profiles: Seq<ProfileView>, id: Seq<char>)
    ensures
        key_user(profiles, id) is Some <==> is_used(profiles, id),
        key_user(profiles, id) matches Some(p) ==> p.auth_key_id == id && profiles.contains(p),
    decreases profiles.len(),
{
    if profiles.len() > 0 {
        let rest = profiles.drop_first();
        assert(profiles[0] == profiles.first());
        if profiles[0].auth_key_id != id {
            lemma_key_user(rest, id);
            if is_used(profiles, id) {
                let i = choose|i: int|
                    0 <= i < profiles.len() && (#[trigger] profiles[i]).auth_key_id == id;
                assert(rest[i - 1].auth_key_id == id);
            }
            if let Some(p) = key_user(rest, id) {
                let k = rest.index_of(p);
                assert(profiles[k + 1] == p);
                assert(profiles[k + 1].auth_key_id == id);
            }
        }
    }
}

/// Deleting a key: one that a profile refers to stays, however often it is asked for, and the
/// notice names such a profile. Any other is asked for at the first click; the second takes
/// exactly the keys with this id out, stores what is left, and erases the secret. Profiles never
/// change.
pub proof fn law_deleting_a_key(s: AppView, id: String, fresh: NewIdsView, inline: bool)
    ensures
        ({
            let (t, effects) = step(s, Message::DeleteKey(id), fresh);
            &&& t.profiles == s.profiles
            &&& is_used(s.profiles, id@) ==> {
                &&& t.keys == s.keys
                &&& effects.len() == 0
                &&& exists|i: int|
                    0 <= i < s.profiles.len() && (#[trigger] s.profiles[i]).auth_key_id == id@
                        && t.notice == Some(
                        quoted(
                            "This key is used by profile \""@,
                            s.profiles[i].name,
                            "\" — repoint or delete that profile first."@,
                        ),
                    )
            }
            &&& !is_used(s.profiles, id@) && s.confirm_delete_key != Some(id@) ==> {
                &&& t.keys == s.keys
                &&& effects.len() == 0
                &&& t.confirm_delete_key == Some(id@)
            }
            &&& !is_used(s.profiles, id@) && s.confirm_delete_key == Some(id@) ==> {
                &&& forall|i: int| 0 <= i < t.keys.len() ==> (#[trigger] t.keys[i]).id != id@
                &&& forall|i: int|
                    0 <= i < s.keys.len() && (#[trigger] s.keys[i]).id != id@ ==> t.keys.contains(
                        s.keys[i],
                    )
                &&& t.keys == without(s.keys, id@)
                &&& effects == seq![EffectView::Persist, EffectView::DeleteKeySecret(id@)]
                &&& forall|i: int|
                    0 <= i < document(t.keys, t.profiles, inline).keys.len() ==> (
                    #[trigger] document(t.keys, t.profiles, inline).keys[i]).id != id@
            }
        }),
{
    let t = step(s, Message::DeleteKey(id), fresh).0;
    lemma_key_user(s.profiles, id@);
    law_without(s.keys, id@);
    if let Some(user) = key_user(s.profiles, id@) {
        let i = s.profiles.index_of(user);
        assert(s.profiles[i].auth_key_id == id@);
    } else if s.confirm_delete_key == Some(id@) {
        assert forall|i: int| 0 <= i < t.keys.len() implies (#[trigger] t.keys[i]).id != id@ by {
            assert(without(s.keys, id@)[i].record_id() != id@);
        }
        assert forall|i: int| 0 <= i < s.keys.len() && (#[trigger] s.keys[i]).id
            != id@ implies t.keys.contains(s.keys[i]) by {
            assert(s.keys[i].record_id() != id@);
        }
    }
}

/// Whether an effect is among those of a message.
pub open spec fn does(s: AppView, m: Message, fresh: NewIdsView, e: EffectView) -> bool {
    step(s, m, fresh).1.contains(e)
}

/// Every change to keys or profiles is stored.
pub proof fn law_every_change_is_stored(s: AppView, m: Message, fresh: NewIdsView)
    requires
        step(s, m, fresh).0.profiles != s.profiles || step(s, m, fresh).0.keys != s.keys,
    ensures
        does(s, m, fresh, EffectView::Persist),
{
    let e = step(s, m, fresh).1;
    match m {
        Message::Tick(o) | Message::SetupTray(o) => {
            lemma_refreshed(s.profiles, o.snapshots@, s.forward_errors, s.routed_caches);
            let r = refreshed(s.profiles, o.snapshots@, s.forward_errors, s.routed_caches);
            let k = set_forwards(r.profiles, r.failed_in).len() as int + (if m is SetupTray {
                2int
            } else {
                0
            });
            assert(e[k] == EffectView::Persist);
        },
        Message::TrayMenu(id) => {
            lemma_menu_keeps_lists(s, id@);
        },
        Message::DeleteProfile(id) => {
            assert(e[e.len() - 1] == EffectView::Persist);
        },
        Message::ImportRead(Ok(imported)) => {
            assert(e[e.len() - 1] == EffectView::Persist);
        },
        Message::ProfileFormSave => {
            assert(e[e.len() - 1] == EffectView::Persist);
        },
        Message::NewKeyCreate(_)
        | Message::KeyFormSave(_)
        | Message::DeleteKey(_)
        | Message::FormSave
        | Message::DeleteForward(_, _)
        | Message::ToggleForward(_, _, _) => {
            assert(e[0] == EffectView::Persist);
        },
        _ => {},
    }
}

/// After a refresh no forward is switched on whose setup is known to have failed.
pub proof fn law_failed_forwards_are_off(
    profiles: Seq<ProfileView>,
    snapshots: Map<Seq<char>, SnapshotView>,
    errors: Map<Seq<char>, Seq<char>>,
    caches: Map<Seq<char>, RoutesView>,
    i: int,
    k: int,
)
    requires
        0 <= i < profiles.len(),
        0 <= k < profiles[i].forwards.len(),
        snapshots.contains_key(profiles[i].id),
    ensures
        !has_failed(
            refreshed(profiles, snapshots, errors, caches).profiles[i].forwards[k],
            snapshots[profiles[i].id].forwards,
        ),
{
    lemma_refreshed(profiles, snapshots, errors, caches);
    let known = snapshots[profiles[i].id].forwards;
    let f = profiles[i].forwards[k];
    let r = refreshed(profiles, snapshots, errors, caches).profiles[i];
    assert(r.forwards == failed_off(profiles[i].forwards, known));
    assert(r.forwards[k].id == f.id);
}

/// A secret leaves for the clipboard only when its export was asked for twice in a row.
pub proof fn law_key_export_takes_two_clicks(s: AppView, id: String, fresh: NewIdsView)
    ensures
        s.confirm_export_key != Some(id@) ==> step(s, Message::ExportKey(id), fresh).1.len() == 0,
        forall|text: Seq<char>|
            does(s, Message::ExportKey(id), fresh, EffectView::CopyText(text)) ==> (key_with_id(
                s.keys,
                id@,
            ) matches Some(key) && text == key.secret && text.len() > 0),
{
}

/// Connecting a profile starts its session exactly if the profile is ready: it has a server, and a
/// key whose secret is there. Otherwise the window comes up.
pub proof fn law_ready_profiles_connect(s: AppView, id: String, fresh: NewIdsView)
    ensures
        match profile_with_id(s.profiles, id@) {
            Some(p) => if p.is_ready(s.keys) {
                step(s, Message::Connect(id), fresh) == (
                    s,
                    seq![
                        EffectView::Connect {
                            profile: p,
                            secret: key_with_id(s.keys, p.auth_key_id)->0.secret,
                        },
                    ],
                )
            } else {
                step(s, Message::Connect(id), fresh).1 == s.show_window()
            },
            None => step(s, Message::Connect(id), fresh) == (s, Seq::<EffectView>::empty()),
        },
{
}

} // verus!
