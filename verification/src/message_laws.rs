//! What each message promises to do to profiles, keys and forwards.

use vstd::prelude::*;
use vstd::string::*;

use crate::app::{key_user, step, without_errors, AppView, NewIdsView};
use crate::config::{AuthKeyView, ProfileView};
use crate::form_laws::lemma_profile_at;
use crate::forms::{profile_with_id, ProfileFormView};
use crate::forward_form::ForwardFormView;
use crate::forwards::{checked_text, Checked, PortForwardView};
use crate::key_form::KeyFormView;
use crate::message::{EffectView, GeneratedKey, Message, SelectionView};
use crate::profile_field_laws::{
    law_key_is_found_by_its_id, law_key_is_found_if_there, other_key_is_named,
};
use crate::records::{law_position, position, without, HasId};
use crate::session::Phase;
use crate::text::single_spaced;

verus! {

/// Whether the profile at `i` is the first with the id.
pub open spec fn is_profile_at(profiles: Seq<ProfileView>, i: int, id: Seq<char>) -> bool {
    &&& 0 <= i < profiles.len()
    &&& profiles[i].id == id
    &&& forall|j: int| 0 <= j < i ==> (#[trigger] profiles[j]).id != id
}

/// Whether the forward at `k` is the first with the id.
pub open spec fn is_forward_at(forwards: Seq<PortForwardView>, k: int, id: Seq<char>) -> bool {
    &&& 0 <= k < forwards.len()
    &&& forwards[k].id == id
    &&& forall|j: int| 0 <= j < k ==> (#[trigger] forwards[j]).id != id
}

/// Whether the key at `i` is the first with the id.
pub open spec fn is_key_at(keys: Seq<AuthKeyView>, i: int, id: Seq<char>) -> bool {
    &&& 0 <= i < keys.len()
    &&& keys[i].id == id
    &&& forall|j: int| 0 <= j < i ==> (#[trigger] keys[j]).id != id
}

/// Whether no profile has the id.
pub open spec fn is_no_profile(profiles: Seq<ProfileView>, id: Seq<char>) -> bool {
    forall|j: int| 0 <= j < profiles.len() ==> (#[trigger] profiles[j]).id != id
}

/// Whether no forward has the id.
pub open spec fn is_no_forward(forwards: Seq<PortForwardView>, id: Seq<char>) -> bool {
    forall|j: int| 0 <= j < forwards.len() ==> (#[trigger] forwards[j]).id != id
}

/// Whether no key has the id.
pub open spec fn is_no_key(keys: Seq<AuthKeyView>, id: Seq<char>) -> bool {
    forall|j: int| 0 <= j < keys.len() ==> (#[trigger] keys[j]).id != id
}

/// The first profile with an id is found.
pub proof fn lemma_profile(profiles: Seq<ProfileView>, i: int, id: Seq<char>)
    requires
        is_profile_at(profiles, i, id),
    ensures
        position(profiles, id) == Some(i),
        profile_with_id(profiles, id) == Some(profiles[i]),
{
    law_position(profiles, id);
    assert(profiles[i].record_id() == id);
    if let Some(k) = position(profiles, id) {
        assert(profiles[k].record_id() == profiles[k].id);
        if k < i {
            assert(profiles[k].id != id);
        }
    }
    lemma_profile_at(profiles, id);
    if let Some(p) = profile_with_id(profiles, id) {
        let k = choose|k: int|
            0 <= k < profiles.len() && #[trigger] profiles[k] == p && p.id == id && (forall|
                j: int,
            |
                0 <= j < k ==> (#[trigger] profiles[j]).id != id);
        if k < i {
            assert(profiles[k].id != id);
        } else if i < k {
            assert(profiles[i].id != id);
        }
    }
}

/// A profile that is not there is not found.
pub proof fn lemma_no_profile(profiles: Seq<ProfileView>, id: Seq<char>)
    requires
        is_no_profile(profiles, id),
    ensures
        position(profiles, id) is None,
        profile_with_id(profiles, id) is None,
{
    law_position(profiles, id);
    if let Some(k) = position(profiles, id) {
        assert(profiles[k].record_id() == profiles[k].id);
    }
    lemma_profile_at(profiles, id);
}

/// The first forward with an id is found.
pub proof fn lemma_forward(forwards: Seq<PortForwardView>, k: int, id: Seq<char>)
    requires
        is_forward_at(forwards, k, id),
    ensures
        position(forwards, id) == Some(k),
{
    law_position(forwards, id);
    assert(forwards[k].record_id() == id);
    if let Some(j) = position(forwards, id) {
        assert(forwards[j].record_id() == forwards[j].id);
        if j < k {
            assert(forwards[j].id != id);
        }
    }
}

proof fn lemma_no_forward(forwards: Seq<PortForwardView>, id: Seq<char>)
    requires
        is_no_forward(forwards, id),
    ensures
        position(forwards, id) is None,
        without(forwards, id) == forwards,
    decreases forwards.len(),
{
    law_position(forwards, id);
    if let Some(k) = position(forwards, id) {
        assert(forwards[k].record_id() == forwards[k].id);
    }
    if forwards.len() > 0 {
        let front = forwards.drop_last();
        assert(forwards[forwards.len() - 1].id != id);
        assert forall|j: int| 0 <= j < front.len() implies (#[trigger] front[j]).id != id by {
            assert(forwards[j].id != id);
        }
        lemma_no_forward(front, id);
        assert(front.push(forwards.last()) == forwards);
    } else {
        assert(forwards == Seq::<PortForwardView>::empty());
    }
}

proof fn lemma_key(keys: Seq<AuthKeyView>, i: int, id: Seq<char>)
    requires
        is_key_at(keys, i, id),
    ensures
        position(keys, id) == Some(i),
{
    law_position(keys, id);
    assert(keys[i].record_id() == id);
    if let Some(k) = position(keys, id) {
        assert(keys[k].record_id() == keys[k].id);
        if k < i {
            assert(keys[k].id != id);
        }
    }
}

proof fn lemma_no_key(keys: Seq<AuthKeyView>, id: Seq<char>)
    requires
        is_no_key(keys, id),
    ensures
        position(keys, id) is None,
{
    law_position(keys, id);
    if let Some(k) = position(keys, id) {
        assert(keys[k].record_id() == keys[k].id);
    }
}

/// Whether only the forwards of the profile at `i` may differ between two lists of profiles.
pub open spec fn differ_in_forwards_at(
    a: Seq<ProfileView>,
    b: Seq<ProfileView>,
    i: int,
) -> bool {
    &&& a.len() == b.len()
    &&& forall|j: int| 0 <= j < a.len() && j != i ==> #[trigger] a[j] == b[j]
    &&& a[i] == (ProfileView { forwards: a[i].forwards, ..b[i] })
}

/// The effects of a change to the forwards of one profile: everything is stored, and the profile's
/// session gets the forwards.
pub open spec fn forwards_told(id: Seq<char>, forwards: Seq<PortForwardView>) -> Seq<EffectView> {
    seq![EffectView::Persist, EffectView::SetForwards { profile_id: id, forwards }]
}

proof fn lemma_updated_profile(profiles: Seq<ProfileView>, i: int, id: Seq<char>, p: ProfileView)
    requires
        is_profile_at(profiles, i, id),
        p.id == id,
    ensures
        profile_with_id(profiles.update(i, p), id) == Some(p),
{
    let after = profiles.update(i, p);
    assert forall|j: int| 0 <= j < i implies (#[trigger] after[j]).id != id by {
        assert(profiles[j].id != id);
    }
    lemma_profile(after, i, id);
}

/// Switching a forward on or off sets its switch and nothing else of it. Every other forward, and
/// every other profile, stays as it is. The profile's session gets the list with the new switch,
/// and all is stored. Switching on forgets why the forward failed; the other errors stay.
pub proof fn law_toggle_switches_one_forward(
    s: AppView,
    p: String,
    f: String,
    on: bool,
    fresh: NewIdsView,
    i: int,
    k: int,
)
    requires
        is_profile_at(s.profiles, i, p@),
        is_forward_at(s.profiles[i].forwards, k, f@),
    ensures
        ({
            let (t, effects) = step(s, Message::ToggleForward(p, f, on), fresh);
            let (before, after) = (s.profiles[i].forwards, t.profiles[i].forwards);
            &&& differ_in_forwards_at(t.profiles, s.profiles, i)
            &&& after.len() == before.len()
            &&& after[k].enabled == on
            &&& after[k].id == before[k].id
            &&& after[k].label == before[k].label
            &&& after[k].local_port == before[k].local_port
            &&& after[k].remote_host == before[k].remote_host
            &&& after[k].remote_port == before[k].remote_port
            &&& forall|j: int| 0 <= j < before.len() && j != k ==> #[trigger] after[j] == before[j]
            &&& effects == forwards_told(p@, after)
            &&& on ==> !t.forward_errors.contains_key(f@)
            &&& forall|id: Seq<char>| #[trigger]
                t.forward_errors.contains_key(id) <==> s.forward_errors.contains_key(id) && !(on
                    && id == f@)
            &&& forall|id: Seq<char>|
                t.forward_errors.contains_key(id) ==> #[trigger] t.forward_errors[id]
                    == s.forward_errors[id]
            &&& t == (AppView {
                profiles: t.profiles,
                forward_errors: t.forward_errors,
                ..s
            })
        }),
{
    lemma_profile(s.profiles, i, p@);
    lemma_forward(s.profiles[i].forwards, k, f@);
    let (t, effects) = step(s, Message::ToggleForward(p, f, on), fresh);
    lemma_updated_profile(s.profiles, i, p@, t.profiles[i]);
    assert(t.profiles == s.profiles.update(i, t.profiles[i]));
}

/// Deleting a forward takes it out of its profile and leaves the others in their order. Its error
/// is forgotten, the profile's session gets the forwards that are left, and all is stored.
pub proof fn law_deleting_takes_one_forward(
    s: AppView,
    p: String,
    f: String,
    fresh: NewIdsView,
    i: int,
    k: int,
)
    requires
        is_profile_at(s.profiles, i, p@),
        is_forward_at(s.profiles[i].forwards, k, f@),
        forall|j: int|
            k < j < s.profiles[i].forwards.len() ==> (#[trigger] s.profiles[i].forwards[j]).id
                != f@,
    ensures
        ({
            let (t, effects) = step(s, Message::DeleteForward(p, f), fresh);
            let (before, after) = (s.profiles[i].forwards, t.profiles[i].forwards);
            &&& differ_in_forwards_at(t.profiles, s.profiles, i)
            &&& after == before.remove(k)
            &&& effects == forwards_told(p@, after)
            &&& t.forward_errors == s.forward_errors.remove(f@)
            &&& t == (AppView {
                profiles: t.profiles,
                forward_errors: t.forward_errors,
                ..s
            })
        }),
{
    lemma_profile(s.profiles, i, p@);
    lemma_without_one(s.profiles[i].forwards, f@, k);
    let (t, effects) = step(s, Message::DeleteForward(p, f), fresh);
    lemma_updated_profile(s.profiles, i, p@, t.profiles[i]);
    assert(t.profiles == s.profiles.update(i, t.profiles[i]));
}

proof fn lemma_without_one(forwards: Seq<PortForwardView>, id: Seq<char>, k: int)
    requires
        is_forward_at(forwards, k, id),
        forall|j: int| k < j < forwards.len() ==> (#[trigger] forwards[j]).id != id,
    ensures
        without(forwards, id) == forwards.remove(k),
    decreases forwards.len(),
{
    let front = forwards.drop_last();
    assert forall|j: int| 0 <= j < front.len() && j != k implies (#[trigger] front[j]).id != id by {
        assert(forwards[j].id != id);
    }
    if k == front.len() {
        lemma_no_forward(front, id);
        assert(forwards.remove(k) == front);
    } else {
        assert(forwards[forwards.len() - 1].id != id);
        lemma_without_one(front, id, k);
        assert(forwards.remove(k) == front.remove(k).push(forwards.last()));
    }
}

/// A forward or a profile that is not there can be neither switched, deleted nor edited: nothing
/// changes and nothing is done.
pub proof fn law_unknown_forwards_change_nothing(
    s: AppView,
    p: String,
    f: String,
    on: bool,
    fresh: NewIdsView,
    i: int,
)
    requires
        is_no_profile(s.profiles, p@) || is_profile_at(s.profiles, i, p@) && is_no_forward(
            s.profiles[i].forwards,
            f@,
        ),
    ensures
        step(s, Message::ToggleForward(p, f, on), fresh) == (s, Seq::<EffectView>::empty()),
        step(s, Message::DeleteForward(p, f), fresh) == (s, Seq::<EffectView>::empty()),
        step(s, Message::EditForward(p, f), fresh) == (s, Seq::<EffectView>::empty()),
{
    if is_no_profile(s.profiles, p@) {
        lemma_no_profile(s.profiles, p@);
    } else {
        lemma_profile(s.profiles, i, p@);
        lemma_no_forward(s.profiles[i].forwards, f@);
    }
}

/// Saving the forward form puts the forward where the one with its id was, or behind the others
/// of its profile. Nothing else of any profile changes, the form is closed, the profile's session
/// gets the forwards, and all is stored. A forward that is switched on has its error forgotten.
pub proof fn law_saving_puts_one_forward(
    s: AppView,
    form: ForwardFormView,
    p: Seq<char>,
    fresh: NewIdsView,
    f: PortForwardView,
    i: int,
)
    requires
        s.forward_form == Some((p, form)),
        form.checked(s.profiles, fresh.id) == Ok::<PortForwardView, Seq<char>>(f),
        is_profile_at(s.profiles, i, p),
    ensures
        ({
            let (t, effects) = step(s, Message::FormSave, fresh);
            let (before, after) = (s.profiles[i].forwards, t.profiles[i].forwards);
            &&& differ_in_forwards_at(t.profiles, s.profiles, i)
            &&& forall|k: int| #[trigger]
                is_forward_at(before, k, f.id) ==> after.len() == before.len() && after[k] == f
                    && forall|j: int|
                    0 <= j < before.len() && j != k ==> #[trigger] after[j] == before[j]
            &&& is_no_forward(before, f.id) ==> after == before.push(f)
            &&& effects == forwards_told(p, after)
            &&& t.forward_form is None
            &&& f.enabled ==> t.forward_errors == s.forward_errors.remove(f.id)
            &&& !f.enabled ==> t.forward_errors == s.forward_errors
            &&& t == (AppView {
                profiles: t.profiles,
                forward_errors: t.forward_errors,
                forward_form: t.forward_form,
                ..s
            })
        }),
{
    lemma_profile(s.profiles, i, p);
    let (t, effects) = step(s, Message::FormSave, fresh);
    let before = s.profiles[i].forwards;
    assert(f.record_id() == f.id);
    assert forall|k: int| #[trigger] is_forward_at(before, k, f.id) implies
        t.profiles[i].forwards.len() == before.len() && t.profiles[i].forwards[k] == f && forall|
        j: int,
    |
        0 <= j < before.len() && j != k ==> #[trigger] t.profiles[i].forwards[j] == before[j] by {
        lemma_forward(before, k, f.id);
    }
    if is_no_forward(before, f.id) {
        lemma_no_forward(before, f.id);
    }
    lemma_updated_profile(s.profiles, i, p, t.profiles[i]);
    assert(t.profiles == s.profiles.update(i, t.profiles[i]));
}

/// A form that is not open, is refused, or is for a profile or a key that is gone, saves nothing:
/// the state stays as it is, the form included.
pub proof fn law_refused_forms_change_nothing(s: AppView, fresh: NewIdsView, parsed: Checked<String>)
    ensures
        (match s.forward_form {
            None => true,
            Some((p, form)) => form.checked(s.profiles, fresh.id) is Err || is_no_profile(
                s.profiles,
                p,
            ),
        }) ==> step(s, Message::FormSave, fresh) == (s, Seq::<EffectView>::empty()),
        (match s.profile_form {
            None => true,
            Some(form) => form.checked(s.profiles, s.keys, fresh.id) is Err,
        }) ==> step(s, Message::ProfileFormSave, fresh) == (s, Seq::<EffectView>::empty()),
        (match s.key_form {
            None => true,
            Some(form) => form.checked(s.keys, checked_text(parsed), fresh.id) is Err,
        }) ==> step(s, Message::KeyFormSave(parsed), fresh) == (s, Seq::<EffectView>::empty()),
{
    if let Some((p, form)) = s.forward_form {
        if is_no_profile(s.profiles, p) {
            lemma_no_profile(s.profiles, p);
        }
    }
}

/// Saving the profile form puts the profile where the one with its id was, or behind the others,
/// and selects it. No other profile changes, the form is closed, and all is stored. A log filter
/// on the profile follows its new name, and the log is then read again. Unless a notice is shown
/// already, one says that it was saved, and that a running session has to reconnect.
pub proof fn law_saving_puts_one_profile(
    s: AppView,
    form: ProfileFormView,
    fresh: NewIdsView,
    p: ProfileView,
    i: int,
)
    requires
        s.profile_form == Some(form),
        form.checked(s.profiles, s.keys, fresh.id) == Ok::<ProfileView, Seq<char>>(p),
        is_profile_at(s.profiles, i, p.id) || i == s.profiles.len() && is_no_profile(
            s.profiles,
            p.id,
        ),
    ensures
        ({
            let (t, effects) = step(s, Message::ProfileFormSave, fresh);
            let renamed = i < s.profiles.len() && s.log_filter == Some(s.profiles[i].name)
                && s.profiles[i].name != p.name;
            let running = s.snapshots.contains_key(p.id) && s.snapshots[p.id].phase != Phase::Idle;
            &&& t.profiles.len() == (if i < s.profiles.len() {
                s.profiles.len()
            } else {
                s.profiles.len() + 1
            })
            &&& t.profiles[i] == p
            &&& forall|j: int|
                0 <= j < s.profiles.len() && j != i ==> #[trigger] t.profiles[j] == s.profiles[j]
            &&& t.selection == SelectionView::Profile(p.id)
            &&& t.profile_form is None
            &&& renamed ==> t.log_filter == Some(p.name)
            &&& !renamed ==> t.log_filter == s.log_filter
            &&& s.notice is Some ==> t.notice == s.notice
            &&& s.notice is None && running ==> t.notice == Some("Saved — reconnect to apply."@)
            &&& s.notice is None && !running ==> t.notice == Some("Saved."@)
            &&& renamed ==> effects == seq![EffectView::ReadLogs, EffectView::Persist]
            &&& !renamed ==> effects == seq![EffectView::Persist]
            &&& t == (AppView {
                profiles: t.profiles,
                selection: t.selection,
                profile_form: t.profile_form,
                log_filter: t.log_filter,
                notice: t.notice,
                ..s
            })
        }),
{
    assert(p.record_id() == p.id);
    if i < s.profiles.len() {
        lemma_profile(s.profiles, i, p.id);
    } else {
        lemma_no_profile(s.profiles, p.id);
    }
}

/// Saving the key form puts the key where the one with its id was, or behind the others. No other
/// key changes, the form is closed, and all is stored. The secret is stored exactly if it is new.
pub proof fn law_saving_puts_one_key(
    s: AppView,
    form: KeyFormView,
    parsed: Checked<String>,
    fresh: NewIdsView,
    key: AuthKeyView,
    i: int,
)
    requires
        s.key_form == Some(form),
        form.checked(s.keys, checked_text(parsed), fresh.id) == Ok::<AuthKeyView, Seq<char>>(key),
        is_key_at(s.keys, i, key.id) || i == s.keys.len() && is_no_key(s.keys, key.id),
    ensures
        ({
            let (t, effects) = step(s, Message::KeyFormSave(parsed), fresh);
            let stored = i < s.keys.len() && s.keys[i].secret == key.secret;
            &&& t.keys.len() == (if i < s.keys.len() {
                s.keys.len()
            } else {
                s.keys.len() + 1
            })
            &&& t.keys[i] == key
            &&& forall|j: int| 0 <= j < s.keys.len() && j != i ==> #[trigger] t.keys[j] == s.keys[j]
            &&& t.key_form is None
            &&& s.notice is Some ==> t.notice == s.notice
            &&& s.notice is None ==> t.notice == Some(
                "Saved — profiles using this key apply it on reconnect."@,
            )
            &&& stored ==> effects == seq![EffectView::Persist]
            &&& !stored ==> effects == seq![
                EffectView::Persist,
                EffectView::SaveKeySecret { id: key.id, secret: key.secret },
            ]
            &&& t == (AppView { keys: t.keys, key_form: t.key_form, notice: t.notice, ..s })
        }),
{
    assert(key.record_id() == key.id);
    if i < s.keys.len() {
        lemma_key(s.keys, i, key.id);
    } else {
        lemma_no_key(s.keys, key.id);
    }
}

/// A key that is created from the profile form stands behind the others, with the keypair that
/// was generated and the name that was asked for, and is picked in the form. It is stored with its
/// secret. A name that cannot be used creates nothing.
pub proof fn law_creating_adds_one_key(
    s: AppView,
    form: ProfileFormView,
    name: Seq<char>,
    generated: GeneratedKey,
    fresh: NewIdsView,
)
    requires
        s.profile_form == Some(form),
        form.new_key_name == Some(name),
    ensures
        ({
            let (t, effects) = step(s, Message::NewKeyCreate(generated), fresh);
            let wanted = single_spaced(name);
            let fits = 0 < wanted.len() <= 64 && !other_key_is_named(s.keys, wanted, None);
            &&& fits ==> {
                &&& t.keys.len() == s.keys.len() + 1
                &&& forall|j: int| 0 <= j < s.keys.len() ==> #[trigger] t.keys[j] == s.keys[j]
                &&& t.keys[s.keys.len() as int].id == fresh.id
                &&& t.keys[s.keys.len() as int].name == wanted
                &&& t.keys[s.keys.len() as int].public_key == generated.public_key@
                &&& t.keys[s.keys.len() as int].secret == generated.secret@
                &&& t.profile_form is Some
                &&& t.profile_form->0.auth_key_id == fresh.id
                &&& t.profile_form->0.new_key_name is None
                &&& t.profile_form->0 == (ProfileFormView {
                    auth_key_id: t.profile_form->0.auth_key_id,
                    new_key_name: None,
                    ..form
                })
                &&& t == (AppView { keys: t.keys, profile_form: t.profile_form, ..s })
                &&& effects == seq![
                    EffectView::Persist,
                    EffectView::SaveKeySecret { id: fresh.id, secret: generated.secret@ },
                ]
            }
            &&& !fits ==> t == s && effects.len() == 0
        }),
{
}

/// Without an open prompt for a new key, none is created.
pub proof fn law_no_prompt_creates_no_key(
    s: AppView,
    generated: GeneratedKey,
    fresh: NewIdsView,
)
    requires
        s.profile_form is None || s.profile_form->0.new_key_name is None,
    ensures
        step(s, Message::NewKeyCreate(generated), fresh) == (s, Seq::<EffectView>::empty()),
{
}

/// Taking out the errors of some forwards leaves those of the others.
pub proof fn lemma_without_errors(
    errors: Map<Seq<char>, Seq<char>>,
    forwards: Seq<PortForwardView>,
    id: Seq<char>,
)
    ensures
        without_errors(errors, forwards).contains_key(id) <==> errors.contains_key(id)
            && is_no_forward(forwards, id),
        without_errors(errors, forwards).contains_key(id) ==> without_errors(errors, forwards)[id]
            == errors[id],
    decreases forwards.len(),
{
    if forwards.len() > 0 {
        let front = forwards.drop_last();
        lemma_without_errors(errors, front, id);
        assert(forwards[forwards.len() - 1] == forwards.last());
        if is_no_forward(forwards, id) {
            assert forall|j: int| 0 <= j < front.len() implies (#[trigger] front[j]).id != id by {
                assert(forwards[j].id != id);
            }
        }
        if is_no_forward(front, id) && forwards.last().id != id {
            assert forall|j: int| 0 <= j < forwards.len() implies (#[trigger] forwards[j]).id
                != id by {
                if j < front.len() {
                    assert(front[j].id != id);
                }
            }
        }
    }
}

/// The second click takes the profile out of the list and leaves the others in their order. Its
/// session is removed and all is stored. What failed in its forwards, the rules that its server
/// pushed and what was known of its session are forgotten; of other profiles nothing is. If it was
/// selected, the one that takes its place is, or the last one. A log filter on it is lifted, and
/// the log is then read again. Without a profile left, the form that adds one is open.
pub proof fn law_deleting_takes_one_profile(
    s: AppView,
    p: String,
    fresh: NewIdsView,
    i: int,
    id: Seq<char>,
)
    requires
        s.confirm_delete == Some(p@),
        is_profile_at(s.profiles, i, p@),
    ensures
        ({
            let (t, effects) = step(s, Message::DeleteProfile(p), fresh);
            let gone = s.profiles[i];
            let filtered = s.log_filter == Some(gone.name);
            &&& t.profiles == s.profiles.remove(i)
            &&& t.confirm_delete is None
            &&& t.forward_errors.contains_key(id) <==> s.forward_errors.contains_key(id)
                && is_no_forward(gone.forwards, id)
            &&& t.forward_errors.contains_key(id) ==> t.forward_errors[id] == s.forward_errors[id]
            &&& t.routed_caches == s.routed_caches.remove(p@)
            &&& t.snapshots == s.snapshots.remove(p@)
            &&& t.forward_form is None
            &&& filtered ==> t.log_filter is None
            &&& !filtered ==> t.log_filter == s.log_filter
            &&& s.selection != SelectionView::Profile(p@) ==> t.selection == s.selection
            &&& s.selection == SelectionView::Profile(p@) ==> t.selection == (if s.profiles.len()
                == 1 {
                SelectionView::Logs
            } else if i == s.profiles.len() - 1 {
                SelectionView::Profile(s.profiles[i - 1].id)
            } else {
                SelectionView::Profile(s.profiles[i + 1].id)
            })
            &&& s.profiles.len() > 1 ==> t.profile_form == s.profile_form
            &&& s.profiles.len() == 1 ==> t.profile_form == Some(
                ProfileFormView::adding(Seq::empty()),
            )
            &&& filtered ==> effects == seq![
                EffectView::RemoveProfile(p@),
                EffectView::ReadLogs,
                EffectView::Persist,
            ]
            &&& !filtered ==> effects == seq![EffectView::RemoveProfile(p@), EffectView::Persist]
            &&& t == (AppView {
                profiles: t.profiles,
                confirm_delete: t.confirm_delete,
                forward_errors: t.forward_errors,
                routed_caches: t.routed_caches,
                snapshots: t.snapshots,
                forward_form: t.forward_form,
                log_filter: t.log_filter,
                selection: t.selection,
                profile_form: t.profile_form,
                ..s
            })
        }),
{
    lemma_profile(s.profiles, i, p@);
    lemma_without_errors(s.forward_errors, s.profiles[i].forwards, id);
}

/// The first click on deleting a profile only asks, whatever was asked about before; a profile
/// that is not there is then not deleted.
pub proof fn law_first_click_asks(s: AppView, p: String, fresh: NewIdsView)
    ensures
        s.confirm_delete != Some(p@) ==> step(s, Message::DeleteProfile(p), fresh) == (
            AppView { confirm_delete: Some(p@), ..s },
            Seq::<EffectView>::empty(),
        ),
        s.confirm_delete == Some(p@) && is_no_profile(s.profiles, p@) ==> step(
            s,
            Message::DeleteProfile(p),
            fresh,
        ) == (AppView { confirm_delete: None, ..s }, Seq::<EffectView>::empty()),
        s.confirm_export_key != Some(p@) ==> step(s, Message::ExportKey(p), fresh) == (
            AppView { confirm_export_key: Some(p@), confirm_delete_key: None, ..s },
            Seq::<EffectView>::empty(),
        ),
{
    if is_no_profile(s.profiles, p@) {
        lemma_no_profile(s.profiles, p@);
    }
}

/// The effects that bring the window to the front: an open one is focused, and otherwise one is
/// opened and the app shows itself.
pub open spec fn window_shown(s: AppView) -> Seq<EffectView> {
    if s.window is Some {
        seq![EffectView::FocusWindow(s.window->0)]
    } else {
        seq![EffectView::OpenWindow, EffectView::SetActivationPolicy(true)]
    }
}

/// Connecting a profile starts its session with the secret of its key, and changes nothing, if
/// the key is there with its secret and the profile has a server. A key without its secret is
/// opened for it; a profile without its key or its server is opened for that; the window is then
/// shown and a notice says what is missing. A profile that is not there is not connected.
pub proof fn law_connecting_uses_the_key(
    s: AppView,
    p: String,
    fresh: NewIdsView,
    i: int,
    k: int,
)
    ensures
        ({
            let (t, effects) = step(s, Message::Connect(p), fresh);
            let profile = s.profiles[i];
            let key = s.keys[k];
            let named = profile.auth_key_id.len() > 0;
            let there = is_profile_at(s.profiles, i, p@);
            let keyed = there && named && is_key_at(s.keys, k, profile.auth_key_id);
            &&& is_no_profile(s.profiles, p@) ==> t == s && effects.len() == 0
            &&& keyed && key.secret.len() > 0 && profile.server_node_id.len() > 0 ==> {
                &&& t == s
                &&& effects == seq![EffectView::Connect { profile, secret: key.secret }]
            }
            &&& keyed && key.secret.len() == 0 ==> {
                &&& t.selection == SelectionView::Keys
                &&& t.profile_form is None
                &&& t.key_form is Some
                &&& t.key_form->0.editing_id == Some(key.id)
                &&& t.key_form->0.name == key.name
                &&& t.key_form->0.secret == key.secret
                &&& t.notice == Some(
                    "Re-enter the secret of key \""@ + key.name + "\" to connect."@,
                )
                &&& effects == window_shown(s)
                &&& t == (AppView {
                    selection: t.selection,
                    profile_form: t.profile_form,
                    key_form: t.key_form,
                    notice: t.notice,
                    ..s
                })
            }
            &&& keyed && key.secret.len() > 0 && profile.server_node_id.len() == 0 || there && (
            !named || is_no_key(s.keys, profile.auth_key_id)) ==> {
                &&& t.selection == SelectionView::Profile(profile.id)
                &&& t.profile_form is Some
                &&& t.profile_form->0.editing_id == Some(profile.id)
                &&& t.profile_form == Some(ProfileFormView::editing(profile))
                &&& t.notice == Some(
                    if keyed {
                        "Enter the server node id to connect."@
                    } else {
                        "Pick an auth key to connect."@
                    },
                )
                &&& effects == window_shown(s)
                &&& t == (AppView {
                    selection: t.selection,
                    profile_form: t.profile_form,
                    notice: t.notice,
                    ..s
                })
            }
        }),
{
    let profile = s.profiles[i];
    if is_no_profile(s.profiles, p@) {
        lemma_no_profile(s.profiles, p@);
    }
    if is_profile_at(s.profiles, i, p@) {
        lemma_profile(s.profiles, i, p@);
        if profile.auth_key_id.len() > 0 && is_key_at(s.keys, k, profile.auth_key_id) {
            law_key_is_found_by_its_id(s.keys, profile.auth_key_id, k);
        }
        if is_no_key(s.keys, profile.auth_key_id) {
            law_key_is_found_if_there(s.keys, profile.auth_key_id);
        }
    }
}

/// The second click on exporting a key copies its secret, and changes only the question and the
/// notice. A key that is not there, or has no secret, copies nothing.
pub proof fn law_exporting_copies_the_secret(s: AppView, id: String, fresh: NewIdsView, k: int)
    requires
        s.confirm_export_key == Some(id@),
    ensures
        ({
            let (t, effects) = step(s, Message::ExportKey(id), fresh);
            let found = id@.len() > 0 && is_key_at(s.keys, k, id@);
            &&& t.confirm_export_key is None && t.confirm_delete_key is None
            &&& found && s.keys[k].secret.len() > 0 ==> {
                &&& effects == seq![EffectView::CopyText(s.keys[k].secret)]
                &&& t.notice == Some(
                    "Secret key of \""@ + s.keys[k].name
                        + "\" copied — paste it into the key form of another install."@,
                )
            }
            &&& found && s.keys[k].secret.len() == 0 || is_no_key(s.keys, id@) ==> effects.len()
                == 0 && t.notice == s.notice
            &&& t == (AppView {
                confirm_export_key: t.confirm_export_key,
                confirm_delete_key: t.confirm_delete_key,
                notice: t.notice,
                ..s
            })
        }),
{
    if id@.len() > 0 && is_key_at(s.keys, k, id@) {
        law_key_is_found_by_its_id(s.keys, id@, k);
    }
    if is_no_key(s.keys, id@) {
        law_key_is_found_if_there(s.keys, id@);
    }
}

proof fn lemma_key_user(profiles: Seq<ProfileView>, id: Seq<char>)
    ensures
        key_user(profiles, id) is None <==> forall|i: int|
            0 <= i < profiles.len() ==> (#[trigger] profiles[i]).auth_key_id != id,
        key_user(profiles, id) matches Some(p) ==> exists|i: int|
            0 <= i < profiles.len() && #[trigger] profiles[i] == p && p.auth_key_id == id,
    decreases profiles.len(),
{
    if profiles.len() > 0 {
        let rest = profiles.drop_first();
        lemma_key_user(rest, id);
        if profiles[0].auth_key_id == id {
            assert(profiles[0].auth_key_id == id);
        } else {
            if let Some(p) = key_user(rest, id) {
                let i = choose|i: int|
                    0 <= i < rest.len() && #[trigger] rest[i] == p && p.auth_key_id == id;
                assert(profiles[i + 1] == p);
            } else {
                assert forall|i: int| 0 <= i < profiles.len() implies (
                #[trigger] profiles[i]).auth_key_id != id by {
                    if i > 0 {
                        assert(rest[i - 1].auth_key_id != id);
                    }
                }
            }
        }
    }
}

/// A key that a profile uses is not deleted, and the notice names such a profile. Any other is
/// asked about first. The second click takes it out of the list, leaves the others in their order,
/// closes the form, stores all and deletes the secret.
pub proof fn law_deleting_takes_one_key(s: AppView, id: String, fresh: NewIdsView, k: int)
    ensures
        ({
            let (t, effects) = step(s, Message::DeleteKey(id), fresh);
            let used = exists|i: int|
                0 <= i < s.profiles.len() && (#[trigger] s.profiles[i]).auth_key_id == id@;
            &&& t.confirm_export_key is None
            &&& used ==> {
                &&& t.keys == s.keys && effects.len() == 0 && t.key_form == s.key_form
                &&& t.confirm_delete_key is None
                &&& exists|i: int|
                    0 <= i < s.profiles.len() && (#[trigger] s.profiles[i]).auth_key_id == id@
                        && t.notice == Some(
                        "This key is used by profile \""@ + s.profiles[i].name
                            + "\" — repoint or delete that profile first."@,
                    )
            }
            &&& !used && s.confirm_delete_key != Some(id@) ==> {
                &&& t.keys == s.keys && effects.len() == 0 && t.key_form == s.key_form
                &&& t.confirm_delete_key == Some(id@) && t.notice == s.notice
            }
            &&& !used && s.confirm_delete_key == Some(id@) ==> {
                &&& t.confirm_delete_key is None && t.key_form is None && t.notice == s.notice
                &&& effects == seq![EffectView::Persist, EffectView::DeleteKeySecret(id@)]
                &&& is_key_at(s.keys, k, id@) && (forall|j: int|
                    k < j < s.keys.len() ==> (#[trigger] s.keys[j]).id != id@) ==> t.keys
                    == s.keys.remove(k)
                &&& is_no_key(s.keys, id@) ==> t.keys == s.keys
            }
            &&& t == (AppView {
                keys: t.keys,
                key_form: t.key_form,
                confirm_delete_key: t.confirm_delete_key,
                confirm_export_key: t.confirm_export_key,
                notice: t.notice,
                ..s
            })
        }),
{
    lemma_key_user(s.profiles, id@);
    if let Some(p) = key_user(s.profiles, id@) {
        let i = choose|i: int|
            0 <= i < s.profiles.len() && #[trigger] s.profiles[i] == p && p.auth_key_id == id@;
        assert(s.profiles[i].auth_key_id == id@);
    }
    if is_key_at(s.keys, k, id@) && (forall|j: int|
        k < j < s.keys.len() ==> (#[trigger] s.keys[j]).id != id@) {
        lemma_without_key(s.keys, id@, k);
    }
    if is_no_key(s.keys, id@) {
        lemma_without_no_key(s.keys, id@);
    }
}

proof fn lemma_without_no_key(keys: Seq<AuthKeyView>, id: Seq<char>)
    requires
        is_no_key(keys, id),
    ensures
        without(keys, id) == keys,
    decreases keys.len(),
{
    if keys.len() > 0 {
        let front = keys.drop_last();
        assert(keys[keys.len() - 1].id != id);
        assert forall|j: int| 0 <= j < front.len() implies (#[trigger] front[j]).id != id by {
            assert(keys[j].id != id);
        }
        lemma_without_no_key(front, id);
        assert(front.push(keys.last()) == keys);
    } else {
        assert(keys == Seq::<AuthKeyView>::empty());
    }
}

proof fn lemma_without_key(keys: Seq<AuthKeyView>, id: Seq<char>, k: int)
    requires
        is_key_at(keys, k, id),
        forall|j: int| k < j < keys.len() ==> (#[trigger] keys[j]).id != id,
    ensures
        without(keys, id) == keys.remove(k),
    decreases keys.len(),
{
    let front = keys.drop_last();
    assert forall|j: int| 0 <= j < front.len() && j != k implies (#[trigger] front[j]).id != id by {
        assert(keys[j].id != id);
    }
    if k == front.len() {
        lemma_without_no_key(front, id);
        assert(keys.remove(k) == front);
    } else {
        assert(keys[keys.len() - 1].id != id);
        lemma_without_key(front, id, k);
        assert(keys.remove(k) == front.remove(k).push(keys.last()));
    }
}

/// Of several profiles that use a key, the notice names the first.
pub proof fn law_first_user_of_a_key_is_named(s: AppView, id: String, fresh: NewIdsView, i: int)
    requires
        0 <= i < s.profiles.len(),
        s.profiles[i].auth_key_id == id@,
        forall|j: int| 0 <= j < i ==> (#[trigger] s.profiles[j]).auth_key_id != id@,
    ensures
        step(s, Message::DeleteKey(id), fresh).0.notice == Some(
            "This key is used by profile \""@ + s.profiles[i].name
                + "\" — repoint or delete that profile first."@,
        ),
{
    lemma_first_key_user(s.profiles, id@, i);
}

proof fn lemma_first_key_user(profiles: Seq<ProfileView>, id: Seq<char>, i: int)
    requires
        0 <= i < profiles.len(),
        profiles[i].auth_key_id == id,
        forall|j: int| 0 <= j < i ==> (#[trigger] profiles[j]).auth_key_id != id,
    ensures
        key_user(profiles, id) == Some(profiles[i]),
    decreases i,
{
    if i > 0 {
        let rest = profiles.drop_first();
        assert(profiles[0].auth_key_id != id);
        assert forall|j: int| 0 <= j < i - 1 implies (#[trigger] rest[j]).auth_key_id != id by {
            assert(profiles[j + 1].auth_key_id != id);
        }
        lemma_first_key_user(rest, id, i - 1);
    }
}

} // verus!
