//! What each message promises to do to the window, its forms and the log.

use vstd::prelude::*;
use vstd::string::*;

use crate::app::{lines_with, step, AppView, NewIdsView};
use crate::forms::ProfileFormView;
use crate::forward_form::ForwardFormView;
use crate::message::{EffectView, GeneratedKey, KeyChoice, Message, Selection, TrayClick};
use crate::message_laws::{
    is_forward_at, is_key_at, is_no_key, is_no_profile, is_profile_at, lemma_forward,
    lemma_no_profile, lemma_profile, window_shown,
};
use crate::profile_field_laws::{law_key_is_found_by_its_id, law_key_is_found_if_there};
use crate::session::{is_running, Phase, SnapshotView};
use crate::text::{after_prefix, decimal, join, occurs, strings};
use crate::text_laws::law_prefix_is_taken_off;

verus! {

/// Nothing is done beyond the change of the state.
pub open spec fn only(s: AppView) -> (AppView, Seq<EffectView>) {
    (s, Seq::empty())
}

/// What is typed into a field of the profile form stands in that field. The other fields, and all
/// else, stay as they are.
pub proof fn law_typing_fills_the_profile_field(
    s: AppView,
    form: ProfileFormView,
    v: String,
    on: bool,
    choice: KeyChoice,
    fresh: NewIdsView,
)
    requires
        s.profile_form == Some(form),
    ensures
        step(s, Message::ProfileNameChanged(v), fresh) == only(
            (AppView { profile_form: Some(ProfileFormView { name: v@, ..form }), ..s }),
        ),
        step(s, Message::ServerNodeIdChanged(v), fresh) == only(
            (AppView { profile_form: Some(ProfileFormView { server_node_id: v@, ..form }), ..s }),
        ),
        step(s, Message::AuthKeyPicked(choice), fresh) == only(
            (AppView {
                profile_form: Some(ProfileFormView { auth_key_id: choice.id@, ..form }),
                ..s
            }),
        ),
        step(s, Message::SocksEnabledToggled(on), fresh) == only(
            (AppView { profile_form: Some(ProfileFormView { socks_enabled: on, ..form }), ..s }),
        ),
        step(s, Message::SocksPortChanged(v), fresh) == only(
            (AppView { profile_form: Some(ProfileFormView { socks_port: v@, ..form }), ..s }),
        ),
        step(s, Message::HttpEnabledToggled(on), fresh) == only(
            (AppView { profile_form: Some(ProfileFormView { http_enabled: on, ..form }), ..s }),
        ),
        step(s, Message::HttpPortChanged(v), fresh) == only(
            (AppView { profile_form: Some(ProfileFormView { http_port: v@, ..form }), ..s }),
        ),
        step(s, Message::RelayUrlsChanged(v), fresh) == only(
            (AppView { profile_form: Some(ProfileFormView { relay_urls: v@, ..form }), ..s }),
        ),
        step(s, Message::RelayAuthTokenChanged(v), fresh) == only(
            (AppView {
                profile_form: Some(ProfileFormView { relay_auth_token: v@, ..form }),
                ..s
            }),
        ),
{
    lemma_untouched_forms(s);
}

/// The prompt for a new key opens empty, keeps what is typed while it is open, and closes. An open
/// prompt is not emptied by asking for it again, and a closed one takes no text.
pub proof fn law_key_prompt_opens_and_closes(
    s: AppView,
    form: ProfileFormView,
    v: String,
    fresh: NewIdsView,
)
    requires
        s.profile_form == Some(form),
    ensures
        form.new_key_name is None ==> step(s, Message::NewKeyPrompt, fresh) == only(
            (AppView {
                profile_form: Some(ProfileFormView { new_key_name: Some(Seq::empty()), ..form }),
                ..s
            }),
        ),
        form.new_key_name is Some ==> step(s, Message::NewKeyPrompt, fresh) == only(s),
        form.new_key_name is Some ==> step(s, Message::NewKeyNameChanged(v), fresh) == only(
            (AppView {
                profile_form: Some(ProfileFormView { new_key_name: Some(v@), ..form }),
                ..s
            }),
        ),
        form.new_key_name is None ==> step(s, Message::NewKeyNameChanged(v), fresh) == only(s),
        step(s, Message::NewKeyCancel, fresh) == only(
            (AppView { profile_form: Some(ProfileFormView { new_key_name: None, ..form }), ..s }),
        ),
{
    lemma_untouched_forms(s);
}

proof fn lemma_untouched_forms(s: AppView)
    ensures
        s == (AppView { key_form: s.key_form, forward_form: s.forward_form, ..s }),
        (match s.forward_form {
            Some((id, f)) => Some((id, f)),
            None => None,
        }) == s.forward_form,
{
}

/// What is typed into a field of the key form stands in that field. The other field, and all
/// else, stay as they are.
pub proof fn law_typing_fills_the_key_field(
    s: AppView,
    v: String,
    generated: GeneratedKey,
    fresh: NewIdsView,
)
    requires
        s.key_form is Some,
    ensures
        ({
            let key = s.key_form->0;
            let (a, a_effects) = step(s, Message::KeyNameChanged(v), fresh);
            let (b, b_effects) = step(s, Message::KeySecretChanged(v), fresh);
            let (c, c_effects) = step(s, Message::KeyGenerateSecret(generated), fresh);
            &&& a.key_form is Some && a.key_form->0.name == v@
            &&& a.key_form->0.secret == key.secret && a.key_form->0.editing_id == key.editing_id
            &&& b.key_form is Some && b.key_form->0.secret == v@
            &&& b.key_form->0.name == key.name && b.key_form->0.editing_id == key.editing_id
            &&& c.key_form is Some && c.key_form->0.secret == generated.secret@
            &&& c.key_form->0.name == key.name && c.key_form->0.editing_id == key.editing_id
            &&& a == (AppView { key_form: a.key_form, ..s }) && a_effects.len() == 0
            &&& b == (AppView { key_form: b.key_form, ..s }) && b_effects.len() == 0
            &&& c == (AppView { key_form: c.key_form, ..s }) && c_effects.len() == 0
        }),
{
    lemma_untouched_forms(s);
}

/// What is typed into a field of the forward form stands in that field. The other fields, and all
/// else, stay as they are.
pub proof fn law_typing_fills_the_forward_field(
    s: AppView,
    id: Seq<char>,
    form: ForwardFormView,
    v: String,
    on: bool,
    fresh: NewIdsView,
)
    requires
        s.forward_form == Some((id, form)),
    ensures
        step(s, Message::FormLabelChanged(v), fresh) == only(
            (AppView { forward_form: Some((id, ForwardFormView { label: v@, ..form })), ..s }),
        ),
        step(s, Message::FormLocalPortChanged(v), fresh) == only(
            (AppView { forward_form: Some((id, ForwardFormView { local_port: v@, ..form })), ..s }),
        ),
        step(s, Message::FormRemoteHostChanged(v), fresh) == only(
            (AppView { forward_form: Some((id, ForwardFormView { remote_host: v@, ..form })), ..s }),
        ),
        step(s, Message::FormRemotePortChanged(v), fresh) == only(
            (AppView { forward_form: Some((id, ForwardFormView { remote_port: v@, ..form })), ..s }),
        ),
        step(s, Message::FormEnabledToggled(on), fresh) == only(
            (AppView { forward_form: Some((id, ForwardFormView { enabled: on, ..form })), ..s }),
        ),
{
    lemma_untouched_forms(s);
}

/// A form that is closed takes no text, and is not opened by it.
pub proof fn law_closed_forms_take_nothing(
    s: AppView,
    v: String,
    on: bool,
    choice: KeyChoice,
    generated: GeneratedKey,
    fresh: NewIdsView,
)
    ensures
        s.profile_form is None ==> {
            &&& step(s, Message::ProfileNameChanged(v), fresh) == only(s)
            &&& step(s, Message::ServerNodeIdChanged(v), fresh) == only(s)
            &&& step(s, Message::AuthKeyPicked(choice), fresh) == only(s)
            &&& step(s, Message::NewKeyPrompt, fresh) == only(s)
            &&& step(s, Message::NewKeyNameChanged(v), fresh) == only(s)
            &&& step(s, Message::NewKeyCancel, fresh) == only(s)
            &&& step(s, Message::SocksEnabledToggled(on), fresh) == only(s)
            &&& step(s, Message::SocksPortChanged(v), fresh) == only(s)
            &&& step(s, Message::HttpEnabledToggled(on), fresh) == only(s)
            &&& step(s, Message::HttpPortChanged(v), fresh) == only(s)
            &&& step(s, Message::RelayUrlsChanged(v), fresh) == only(s)
            &&& step(s, Message::RelayAuthTokenChanged(v), fresh) == only(s)
        },
        s.key_form is None ==> {
            &&& step(s, Message::KeyNameChanged(v), fresh) == only(s)
            &&& step(s, Message::KeySecretChanged(v), fresh) == only(s)
            &&& step(s, Message::KeyGenerateSecret(generated), fresh) == only(s)
        },
        s.forward_form is None ==> {
            &&& step(s, Message::FormLabelChanged(v), fresh) == only(s)
            &&& step(s, Message::FormLocalPortChanged(v), fresh) == only(s)
            &&& step(s, Message::FormRemoteHostChanged(v), fresh) == only(s)
            &&& step(s, Message::FormRemotePortChanged(v), fresh) == only(s)
            &&& step(s, Message::FormEnabledToggled(on), fresh) == only(s)
        },
{
    lemma_untouched_forms(s);
}

/// Opening a form shows what the profile, the key or the forward has, or an empty form that adds
/// one. The forms beside it are closed, and so are the notice and the questions; a closed form
/// changes nothing else.
pub proof fn law_forms_open_and_close(
    s: AppView,
    id: String,
    f: String,
    fresh: NewIdsView,
    i: int,
    k: int,
)
    ensures
        step(s, Message::AddProfile, fresh) == only(
            (AppView {
                profile_form: Some(ProfileFormView::adding(s.profiles)),
                key_form: None,
                forward_form: None,
                confirm_delete: None,
                notice: None,
                ..s
            }),
        ),
        is_profile_at(s.profiles, i, id@) ==> step(s, Message::EditProfile(id), fresh) == only(
            (AppView {
                profile_form: Some(ProfileFormView::editing(s.profiles[i])),
                key_form: None,
                forward_form: None,
                notice: None,
                ..s
            }),
        ),
        is_no_profile(s.profiles, id@) ==> step(s, Message::EditProfile(id), fresh) == only(s),
        ({
            let (t, effects) = step(s, Message::AddKey, fresh);
            &&& effects.len() == 0
            &&& t.key_form is Some && t.key_form->0.editing_id is None
            &&& t.key_form->0.name.len() == 0 && t.key_form->0.secret.len() == 0
            &&& t.confirm_delete_key is None && t.confirm_export_key is None && t.notice is None
            &&& t == (AppView {
                key_form: t.key_form,
                confirm_delete_key: None,
                confirm_export_key: None,
                notice: None,
                ..s
            })
        }),
        ({
            let (t, effects) = step(s, Message::EditKey(id), fresh);
            &&& effects.len() == 0
            &&& id@.len() > 0 && is_key_at(s.keys, k, id@) ==> {
                &&& t.key_form is Some && t.key_form->0.editing_id == Some(id@)
                &&& t.key_form->0.name == s.keys[k].name
                &&& t.key_form->0.secret == s.keys[k].secret
                &&& t == (AppView {
                    key_form: t.key_form,
                    confirm_delete_key: None,
                    confirm_export_key: None,
                    notice: None,
                    ..s
                })
            }
            &&& is_no_key(s.keys, id@) ==> t == s
        }),
        ({
            let (t, effects) = step(s, Message::AddForward(id), fresh);
            &&& effects.len() == 0
            &&& t.forward_form is Some && (t.forward_form->0).0 == id@
            &&& (t.forward_form->0).1.editing_id is None && (t.forward_form->0).1.enabled
            &&& (t.forward_form->0).1.label.len() == 0 && (t.forward_form->0).1.local_port.len() == 0
            &&& (t.forward_form->0).1.remote_host.len() == 0
            &&& (t.forward_form->0).1.remote_port.len() == 0
            &&& t == (AppView { forward_form: t.forward_form, ..s })
        }),
        is_profile_at(s.profiles, i, id@) && is_forward_at(s.profiles[i].forwards, k, f@) ==> {
            let (t, effects) = step(s, Message::EditForward(id, f), fresh);
            let shown = s.profiles[i].forwards[k];
            &&& effects.len() == 0
            &&& t.forward_form is Some && (t.forward_form->0).0 == id@
            &&& (t.forward_form->0).1.editing_id == Some(shown.id)
            &&& (t.forward_form->0).1.label == shown.label
            &&& (t.forward_form->0).1.local_port == decimal(shown.local_port as nat)
            &&& (t.forward_form->0).1.remote_host == shown.remote_host
            &&& (t.forward_form->0).1.remote_port == decimal(shown.remote_port as nat)
            &&& (t.forward_form->0).1.enabled == shown.enabled
            &&& t == (AppView { forward_form: t.forward_form, ..s })
        },
        step(s, Message::KeyFormCancel, fresh) == only((AppView { key_form: None, ..s })),
        step(s, Message::ProfileFormCancel, fresh) == only((AppView { profile_form: None, ..s })),
        step(s, Message::FormCancel, fresh) == only((AppView { forward_form: None, ..s })),
{
    if is_no_profile(s.profiles, id@) {
        lemma_no_profile(s.profiles, id@);
    }
    if is_profile_at(s.profiles, i, id@) {
        lemma_profile(s.profiles, i, id@);
        if is_forward_at(s.profiles[i].forwards, k, f@) {
            lemma_forward(s.profiles[i].forwards, k, f@);
        }
    }
    if id@.len() > 0 && is_key_at(s.keys, k, id@) {
        law_key_is_found_by_its_id(s.keys, id@, k);
    }
    if is_no_key(s.keys, id@) {
        law_key_is_found_if_there(s.keys, id@);
    }
}

/// Selecting another row closes every form, question and notice, and changes nothing else.
pub proof fn law_selecting_closes_the_rest(s: AppView, selection: Selection, fresh: NewIdsView)
    ensures
        ({
            let (t, effects) = step(s, Message::Select(selection), fresh);
            &&& effects.len() == 0
            &&& t.selection == selection@
            &&& t.profile_form is None && t.key_form is None && t.forward_form is None
            &&& t.confirm_delete is None && t.confirm_delete_key is None
            &&& t.confirm_export_key is None && t.notice is None && t.conn_path_modal is None
            &&& t.profiles == s.profiles && t.keys == s.keys && t.window == s.window
            &&& t.io_notice == s.io_notice && t.forward_errors == s.forward_errors
            &&& t.routed_caches == s.routed_caches && t.snapshots == s.snapshots
            &&& t.log_revision == s.log_revision && t.log_filter == s.log_filter
            &&& t.log_text == s.log_text
        }),
{
}

/// A click on the tray icon closes the open window, or opens one; other clicks do nothing. A
/// window that was made is the open one, and the app hides when it is closed, but not when some
/// other window is.
pub proof fn law_window_opens_and_closes(s: AppView, click: TrayClick, id: u64, fresh: NewIdsView)
    ensures
        click == TrayClick::Toggle && s.window is Some ==> step(
            s,
            Message::TrayIcon(click),
            fresh,
        ) == (AppView { window: None, ..s }, seq![EffectView::CloseWindow(s.window->0)]),
        click == TrayClick::Toggle && s.window is None ==> step(
            s,
            Message::TrayIcon(click),
            fresh,
        ) == (s, seq![EffectView::OpenWindow, EffectView::SetActivationPolicy(true)]),
        click == TrayClick::Other ==> step(s, Message::TrayIcon(click), fresh) == only(s),
        step(s, Message::WindowOpened, fresh) == only(s),
        step(s, Message::WindowCreated(id), fresh) == only((AppView { window: Some(id), ..s })),
        s.window == Some(id) ==> step(s, Message::WindowClosed(id), fresh) == (
            AppView { window: None, ..s },
            seq![EffectView::SetActivationPolicy(false)],
        ),
        s.window != Some(id) ==> step(s, Message::WindowClosed(id), fresh) == only(s),
{
}

/// An entry of the tray menu opens the window, quits, connects or disconnects the profile that is
/// named behind the colon, or copies the address of its SOCKS5 proxy. Any other entry does
/// nothing.
pub proof fn law_menu_entries(s: AppView, entry: String, id: String, fresh: NewIdsView)
    ensures
        ({
            let r = step(s, Message::TrayMenu(entry), fresh);
            let known = s.snapshots.contains_key(id@);
            let addr = s.snapshots[id@].socks_addr;
            &&& entry@ == "open"@ ==> r == (s, window_shown(s))
            &&& entry@ == "quit"@ ==> r == (s, seq![EffectView::Shutdown, EffectView::Exit])
            &&& entry@ == "connect:"@ + id@ ==> r == step(s, Message::Connect(id), fresh)
            &&& entry@ == "disconnect:"@ + id@ ==> r == (s, seq![EffectView::Disconnect(id@)])
            &&& entry@ == "copy-socks:"@ + id@ && known && addr is Some ==> r == (
                s,
                seq![EffectView::CopyText("socks5://"@ + addr->0)],
            )
            &&& entry@ == "copy-socks:"@ + id@ && !(known && addr is Some) ==> r == only(s)
            &&& entry@ != "open"@ && entry@ != "quit"@ && (forall|x: Seq<char>|
                entry@ != #[trigger] ("connect:"@ + x)) && (forall|x: Seq<char>|
                entry@ != #[trigger] ("disconnect:"@ + x)) && (forall|x: Seq<char>|
                entry@ != #[trigger] ("copy-socks:"@ + x)) ==> r == only(s)
        }),
        step(s, Message::Disconnect(id), fresh) == (s, seq![EffectView::Disconnect(id@)]),
{
    reveal_strlit("open");
    reveal_strlit("quit");
    reveal_strlit("connect:");
    reveal_strlit("disconnect:");
    reveal_strlit("copy-socks:");
    law_prefix_is_taken_off("connect:"@, id@, entry@);
    law_prefix_is_taken_off("disconnect:"@, id@, entry@);
    law_prefix_is_taken_off("copy-socks:"@, id@, entry@);
    let e = entry@;
    assert("connect:"@[0] == 'c' && "connect:"@[2] == 'n');
    assert("copy-socks:"@[0] == 'c' && "copy-socks:"@[2] == 'p');
    assert("disconnect:"@[0] == 'd');
    if e == "connect:"@ + id@ {
        assert(e[0] == 'c');
        assert("open"@[0] == 'o' && "quit"@[0] == 'q');
    }
    if e == "disconnect:"@ + id@ {
        assert(e[0] == 'd');
        assert("open"@[0] == 'o' && "quit"@[0] == 'q');
        if let Some(x) = after_prefix(e, "connect:"@) {
            assert(e[0] == ("connect:"@ + x)[0]);
        }
    }
    if e == "copy-socks:"@ + id@ {
        assert(e[0] == 'c' && e[2] == 'p');
        assert("open"@[0] == 'o' && "quit"@[0] == 'q');
        if let Some(x) = after_prefix(e, "connect:"@) {
            assert(e[2] == ("connect:"@ + x)[2]);
        }
        if let Some(x) = after_prefix(e, "disconnect:"@) {
            assert(e[0] == ("disconnect:"@ + x)[0]);
        }
    }
    if e == "quit"@ {
        assert("open"@[0] == 'o' && "quit"@[0] == 'q');
    }
}

/// Copying, the connection path, picking files and opening the log folder hand on what they were
/// given. A file dialog that was left without a file does nothing.
pub proof fn law_requests_are_handed_on(
    s: AppView,
    text: String,
    fresh: NewIdsView,
)
    ensures
        step(s, Message::CopyText(text), fresh) == (s, seq![EffectView::CopyText(text@)]),
        s.selection is Profile ==> step(s, Message::ShowConnPath, fresh) == (
            s,
            seq![EffectView::QueryConnPath(s.selection->Profile_0)],
        ),
        s.selection !is Profile ==> step(s, Message::ShowConnPath, fresh) == only(s),
        step(s, Message::ConnPath(text), fresh) == only(
            (AppView { conn_path_modal: Some(text@), ..s }),
        ),
        step(s, Message::DismissConnPath, fresh) == only((AppView { conn_path_modal: None, ..s })),
        step(s, Message::ExportProfiles, fresh) == (s, seq![EffectView::PickExportFile]),
        step(s, Message::ImportProfiles, fresh) == (s, seq![EffectView::PickImportFile]),
        step(s, Message::ExportPicked(Some(text)), fresh) == (
            s,
            seq![EffectView::ExportProfiles(text@)],
        ),
        step(s, Message::ExportPicked(None), fresh) == only(s),
        step(s, Message::ImportPicked(Some(text)), fresh) == (
            s,
            seq![EffectView::ImportProfiles(text@)],
        ),
        step(s, Message::ImportPicked(None), fresh) == only(s),
        step(s, Message::OpenLogFolder, fresh) == (s, seq![EffectView::OpenLogFolder]),
        step(s, Message::CopyLogs, fresh) == (s, seq![EffectView::CopyText(s.log_text)]),
{
}

/// What became of an export, an import or a save is told in a notice, and changes nothing else.
pub proof fn law_outcomes_are_told(s: AppView, text: String, fresh: NewIdsView)
    ensures
        step(s, Message::ExportDone(Ok(())), fresh) == only(
            (AppView {
                io_notice: Some(
                    "Exported "@ + decimal(s.profiles.len()) + " profile(s)."@,
                ),
                ..s
            }),
        ),
        step(s, Message::ExportDone(Err(text)), fresh) == only(
            (AppView { io_notice: Some("Export failed: "@ + text@), ..s }),
        ),
        step(s, Message::ImportRead(Err(text)), fresh) == only(
            (AppView { io_notice: Some("Import failed: "@ + text@), ..s }),
        ),
        step(s, Message::SaveFailed(text), fresh) == only(
            (AppView { notice: Some("Failed to save profiles: "@ + text@), ..s }),
        ),
{
}

/// Whether the lines at `places` are, in order, those in which `part` occurs.
pub open spec fn are_places_of(
    places: Seq<int>,
    lines: Seq<Seq<char>>,
    part: Seq<char>,
) -> bool {
    &&& forall|i: int|
        0 <= i < places.len() ==> 0 <= #[trigger] places[i] < lines.len() && occurs(
            part,
            lines[places[i]],
        )
    &&& forall|i: int, j: int| 0 <= i < j < places.len() ==> #[trigger] places[i] < #[trigger] places[j]
    &&& forall|k: int|
        0 <= k < lines.len() && occurs(part, #[trigger] lines[k]) ==> places.contains(k)
}

proof fn lemma_lines_with(lines: Seq<Seq<char>>, part: Seq<char>) -> (places: Seq<int>)
    ensures
        are_places_of(places, lines, part),
        lines_with(lines, part) == places.map_values(|k: int| lines[k]),
    decreases lines.len(),
{
    if lines.len() == 0 {
        let places = Seq::<int>::empty();
        assert(lines_with(lines, part) == places.map_values(|k: int| lines[k]));
        places
    } else {
        let front = lines.drop_last();
        let last = lines.len() - 1;
        let before = lemma_lines_with(front, part);
        assert(before.map_values(|k: int| front[k]) == before.map_values(|k: int| lines[k])) by {
            assert forall|i: int| 0 <= i < before.len() implies front[#[trigger] before[i]]
                == lines[before[i]] by {}
        }
        if occurs(part, lines.last()) {
            let places = before.push(last);
            assert(lines_with(lines, part) == places.map_values(|k: int| lines[k]));
            assert forall|k: int| 0 <= k < lines.len() && occurs(
                part,
                #[trigger] lines[k],
            ) implies places.contains(k) by {
                if k < last {
                    assert(front[k] == lines[k]);
                    let n = before.index_of(k);
                    assert(places[n] == k);
                } else {
                    assert(places[places.len() - 1] == k);
                }
            }
            assert forall|i: int| 0 <= i < places.len() implies 0 <= #[trigger] places[i]
                < lines.len() && occurs(part, lines[places[i]]) by {
                if i < before.len() {
                    assert(places[i] == before[i]);
                    assert(front[before[i]] == lines[before[i]]);
                }
            }
            places
        } else {
            assert forall|k: int| 0 <= k < lines.len() && occurs(
                part,
                #[trigger] lines[k],
            ) implies before.contains(k) by {
                assert(front[k] == lines[k]);
            }
            assert forall|i: int| 0 <= i < before.len() implies 0 <= #[trigger] before[i]
                < lines.len() && occurs(part, lines[before[i]]) by {
                assert(front[before[i]] == lines[before[i]]);
            }
            before
        }
    }
}

/// The log pane shows, one to a line, all log lines, or with a filter those that hold the mark of
/// the profile's session, in their order. Nothing else changes.
pub proof fn law_log_shows_the_lines(s: AppView, lines: Vec<String>, fresh: NewIdsView) -> (places:
    Seq<int>)
    ensures
        ({
            let all = strings(lines@);
            let (t, effects) = step(s, Message::LogLines(lines), fresh);
            &&& effects.len() == 0
            &&& t == (AppView { log_text: t.log_text, ..s })
            &&& s.log_filter is None ==> t.log_text == join(all, seq!['\n'])
            &&& s.log_filter is Some ==> are_places_of(
                places,
                all,
                "[tunnel-"@ + s.log_filter->0 + "]"@,
            ) && t.log_text == join(places.map_values(|k: int| all[k]), seq!['\n'])
        }),
{
    reveal_strlit("\n");
    assert("\n"@ == seq!['\n']);
    if s.log_filter is Some {
        lemma_lines_with(strings(lines@), "[tunnel-"@ + s.log_filter->0 + "]"@)
    } else {
        Seq::empty()
    }
}

/// Choosing a log filter sets it to the profile, or lifts it for all profiles, and reads the log
/// again.
pub proof fn law_log_filter_is_set(s: AppView, value: String, fresh: NewIdsView)
    ensures
        value@ == "All profiles"@ ==> step(s, Message::LogFilterChanged(value), fresh) == (
            AppView { log_filter: None, ..s },
            seq![EffectView::ReadLogs],
        ),
        value@ != "All profiles"@ ==> step(s, Message::LogFilterChanged(value), fresh) == (
            AppView { log_filter: Some(value@), ..s },
            seq![EffectView::ReadLogs],
        ),
{
}

/// Before its first session nothing is known of a profile: it does not run, has no proxy, no
/// forwards and no rules. A session runs in every phase but the idle one.
pub proof fn law_idle_sessions_do_not_run()
    ensures
        ({
            let s = SnapshotView::idle();
            &&& s.phase == Phase::Idle && s.socks_addr is None && s.forwards.len() == 0
            &&& s.routes.domains.len() == 0 && s.routes.cidrs.len() == 0
        }),
        !is_running(Phase::Idle),
        is_running(Phase::Connecting) && is_running(Phase::Connected) && is_running(
            Phase::Reconnecting,
        ),
{
}

} // verus!
