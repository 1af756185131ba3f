//! The desktop app: its state, and what each message makes of it.
//!
//! The app decides; its surroundings act. A message changes the state and names the effects to
//! carry out, and what an effect brings to light comes back as another message.

use vstd::prelude::*;
use vstd::string::*;

use crate::config::{
    key_views, key_with_id, profile_views, AuthKey, AuthKeyView, Profile, ProfileView,
};
use crate::form_laws::with_forward;
use crate::forms::{profile_with_id, ProfileForm, ProfileFormView};
use crate::forward_form::{ForwardForm, ForwardFormView};
use crate::forwards::{checked_text, failed_off, failures, PortForwardView};
use crate::ids::is_id;
use crate::key_form::{key_name, KeyForm, KeyFormView};
use crate::merge::{fresh_views, ids_fit, merged, FreshIds, FreshIdsView};
use crate::message::{EffectView, GeneratedKey, Message, Selection, SelectionView, TrayClick};
use crate::ports::quoted;
use crate::records::{position, saved, without};
use crate::session::{is_running, Routes, RoutesView, Snapshot, SnapshotView};
use crate::table::Table;
use crate::text::{after_prefix, decimal, join, occurs, opt_string, strings};

verus! {

/// The entry of the log filter that stands for all profiles.
pub const LOG_FILTER_ALL: &'static str = "All profiles";

/// The tray menu's entry that opens the window.
pub const MENU_OPEN: &'static str = "open";

/// The tray menu's entry that quits.
pub const MENU_QUIT: &'static str = "quit";

/// What the tray menu's entry that connects a profile starts with; the profile's id follows.
pub const MENU_CONNECT_PREFIX: &'static str = "connect:";

/// What the tray menu's entry that disconnects a profile starts with; the profile's id follows.
pub const MENU_DISCONNECT_PREFIX: &'static str = "disconnect:";

/// What the tray menu's entry that copies a proxy's address starts with; the profile's id follows.
pub const MENU_COPY_SOCKS_PREFIX: &'static str = "copy-socks:";

/// The state of the app.
pub struct App {
    /// The number of the open window.
    pub window: Option<u64>,
    pub profiles: Vec<Profile>,
    pub keys: Vec<AuthKey>,
    pub selection: Selection,
    pub profile_form: Option<ProfileForm>,
    pub key_form: Option<KeyForm>,
    /// The open forward form and the profile that it belongs to.
    pub forward_form: Option<(String, ForwardForm)>,
    /// The profile whose deletion was asked for once.
    pub confirm_delete: Option<String>,
    /// The key whose deletion was asked for once.
    pub confirm_delete_key: Option<String>,
    /// The key whose export was asked for once.
    pub confirm_export_key: Option<String>,
    pub notice: Option<String>,
    /// How a session is connected, while that is shown.
    pub conn_path_modal: Option<String>,
    /// The outcome of the last export or import.
    pub io_notice: Option<String>,
    /// Why the setup of a forward failed, by the forward's id.
    pub forward_errors: Table<String>,
    /// The rules that each profile's server pushed, by the profile's id.
    pub routed_caches: Table<Routes>,
    pub log_revision: u64,
    /// The profile whose log lines are shown; `None` shows all.
    pub log_filter: Option<String>,
    pub log_text: String,
    /// What is known of each profile's session.
    pub snapshots: Table<Snapshot>,
}

/// What an [`App`] holds.
#[verifier::ext_equal]
pub struct AppView {
    pub window: Option<u64>,
    pub profiles: Seq<ProfileView>,
    pub keys: Seq<AuthKeyView>,
    pub selection: SelectionView,
    pub profile_form: Option<ProfileFormView>,
    pub key_form: Option<KeyFormView>,
    pub forward_form: Option<(Seq<char>, ForwardFormView)>,
    pub confirm_delete: Option<Seq<char>>,
    pub confirm_delete_key: Option<Seq<char>>,
    pub confirm_export_key: Option<Seq<char>>,
    pub notice: Option<Seq<char>>,
    pub conn_path_modal: Option<Seq<char>>,
    pub io_notice: Option<Seq<char>>,
    pub forward_errors: Map<Seq<char>, Seq<char>>,
    pub routed_caches: Map<Seq<char>, RoutesView>,
    pub log_revision: u64,
    pub log_filter: Option<Seq<char>>,
    pub log_text: Seq<char>,
    pub snapshots: Map<Seq<char>, SnapshotView>,
}

/// The view of an open profile form.
pub open spec fn opt_profile_form(f: Option<ProfileForm>) -> Option<ProfileFormView> {
    match f {
        Some(form) => Some(form@),
        None => None,
    }
}

/// The view of an open key form.
pub open spec fn opt_key_form(f: Option<KeyForm>) -> Option<KeyFormView> {
    match f {
        Some(form) => Some(form@),
        None => None,
    }
}

/// The view of an open forward form.
pub open spec fn opt_forward_form(f: Option<(String, ForwardForm)>) -> Option<
    (Seq<char>, ForwardFormView),
> {
    match f {
        Some((id, form)) => Some((id@, form@)),
        None => None,
    }
}

impl View for App {
    type V = AppView;

    open spec fn view(&self) -> AppView {
        AppView {
            window: self.window,
            profiles: profile_views(self.profiles@),
            keys: key_views(self.keys@),
            selection: self.selection@,
            profile_form: opt_profile_form(self.profile_form),
            key_form: opt_key_form(self.key_form),
            forward_form: opt_forward_form(self.forward_form),
            confirm_delete: opt_string(self.confirm_delete),
            confirm_delete_key: opt_string(self.confirm_delete_key),
            confirm_export_key: opt_string(self.confirm_export_key),
            notice: opt_string(self.notice),
            conn_path_modal: opt_string(self.conn_path_modal),
            io_notice: opt_string(self.io_notice),
            forward_errors: self.forward_errors@,
            routed_caches: self.routed_caches@,
            log_revision: self.log_revision,
            log_filter: opt_string(self.log_filter),
            log_text: self.log_text@,
            snapshots: self.snapshots@,
        }
    }
}

/// New ids for what a message may create: a profile, key or forward, and imported profiles.
pub struct NewIds {
    pub id: String,
    pub imports: Vec<FreshIds>,
}

/// What [`NewIds`] hold.
#[verifier::ext_equal]
pub struct NewIdsView {
    pub id: Seq<char>,
    pub imports: Seq<FreshIdsView>,
}

impl View for NewIds {
    type V = NewIdsView;

    open spec fn view(&self) -> NewIdsView {
        NewIdsView { id: self.id@, imports: fresh_views(self.imports@) }
    }
}

/// A state, and what is to be done.
pub type Outcome = (AppView, Seq<EffectView>);

/// Only the state changes.
pub open spec fn quietly(s: AppView) -> Outcome {
    (s, Seq::empty())
}

/// The first profile that refers to a key.
pub open spec fn key_user(profiles: Seq<ProfileView>, id: Seq<char>) -> Option<ProfileView>
    decreases profiles.len(),
{
    if profiles.len() == 0 {
        None
    } else if profiles[0].auth_key_id == id {
        Some(profiles[0])
    } else {
        key_user(profiles.drop_first(), id)
    }
}

/// The errors without those of the given forwards.
pub open spec fn without_errors(
    errors: Map<Seq<char>, Seq<char>>,
    forwards: Seq<PortForwardView>,
) -> Map<Seq<char>, Seq<char>>
    decreases forwards.len(),
{
    if forwards.len() == 0 {
        errors
    } else {
        without_errors(errors, forwards.drop_last()).remove(forwards.last().id)
    }
}

/// The errors without those of the forwards that the given profiles had.
pub open spec fn without_errors_of(
    errors: Map<Seq<char>, Seq<char>>,
    profiles: Seq<ProfileView>,
    ids: Seq<Seq<char>>,
) -> Map<Seq<char>, Seq<char>>
    decreases ids.len(),
{
    if ids.len() == 0 {
        errors
    } else {
        let rest = without_errors_of(errors, profiles, ids.drop_last());
        match profile_with_id(profiles, ids.last()) {
            Some(p) => without_errors(rest, p.forwards),
            None => rest,
        }
    }
}

/// The errors with the given ones added.
pub open spec fn with_errors(
    errors: Map<Seq<char>, Seq<char>>,
    failed: Seq<(Seq<char>, Seq<char>)>,
) -> Map<Seq<char>, Seq<char>>
    decreases failed.len(),
{
    if failed.len() == 0 {
        errors
    } else {
        with_errors(errors, failed.drop_last()).insert(failed.last().0, failed.last().1)
    }
}

/// The lines in which a text occurs.
pub open spec fn lines_with(lines: Seq<Seq<char>>, part: Seq<char>) -> Seq<Seq<char>>
    decreases lines.len(),
{
    if lines.len() == 0 {
        Seq::empty()
    } else if occurs(part, lines.last()) {
        lines_with(lines.drop_last(), part).push(lines.last())
    } else {
        lines_with(lines.drop_last(), part)
    }
}

/// The mark of the log lines of a profile's session.
pub open spec fn log_tag(name: Seq<char>) -> Seq<char> {
    "[tunnel-"@ + name + "]"@
}

/// The text of the log pane: all lines, or those of one profile's session.
pub open spec fn log_text(lines: Seq<Seq<char>>, filter: Option<Seq<char>>) -> Seq<char> {
    match filter {
        Some(name) => join(lines_with(lines, log_tag(name)), "\n"@),
        None => join(lines, "\n"@),
    }
}

/// What a refresh makes of the profiles, the errors and the pushed rules.
#[verifier::ext_equal]
pub struct Refreshed {
    pub profiles: Seq<ProfileView>,
    pub errors: Map<Seq<char>, Seq<char>>,
    pub caches: Map<Seq<char>, RoutesView>,
    /// The profiles in which a forward was switched off.
    pub failed_in: Seq<Seq<char>>,
}

/// What a refresh makes of the first profiles, one after the other.
pub open spec fn refreshed(
    profiles: Seq<ProfileView>,
    snapshots: Map<Seq<char>, SnapshotView>,
    errors: Map<Seq<char>, Seq<char>>,
    caches: Map<Seq<char>, RoutesView>,
) -> Refreshed
    decreases profiles.len(),
{
    if profiles.len() == 0 {
        Refreshed { profiles: Seq::empty(), errors, caches, failed_in: Seq::empty() }
    } else {
        let before = refreshed(profiles.drop_last(), snapshots, errors, caches);
        let p = profiles.last();
        if snapshots.contains_key(p.id) {
            let known = snapshots[p.id];
            let failed = failures(p.forwards, known.forwards);
            Refreshed {
                profiles: before.profiles.push(
                    ProfileView { forwards: failed_off(p.forwards, known.forwards), ..p },
                ),
                errors: with_errors(before.errors, failed),
                caches: before.caches.insert(p.id, known.routes),
                failed_in: if failed.len() > 0 {
                    before.failed_in.push(p.id)
                } else {
                    before.failed_in
                },
            }
        } else {
            Refreshed { profiles: before.profiles.push(p), ..before }
        }
    }
}

/// The effects that bring the forwards of profiles to their sessions.
pub open spec fn set_forwards(profiles: Seq<ProfileView>, ids: Seq<Seq<char>>) -> Seq<EffectView>
    decreases ids.len(),
{
    if ids.len() == 0 {
        Seq::empty()
    } else {
        let before = set_forwards(profiles, ids.drop_last());
        match profile_with_id(profiles, ids.last()) {
            Some(p) => before.push(
                EffectView::SetForwards { profile_id: ids.last(), forwards: p.forwards },
            ),
            None => before,
        }
    }
}

/// The effects of a change to one profile's forwards: all is stored, and the profile's session
/// gets the forwards.
pub open spec fn commit_forwards(profiles: Seq<ProfileView>, id: Seq<char>) -> Seq<EffectView> {
    match profile_with_id(profiles, id) {
        Some(p) => seq![
            EffectView::Persist,
            EffectView::SetForwards { profile_id: id, forwards: p.forwards },
        ],
        None => seq![EffectView::Persist],
    }
}

/// A notice, unless there is one.
pub open spec fn notice_or(notice: Option<Seq<char>>, text: Seq<char>) -> Option<Seq<char>> {
    match notice {
        Some(n) => Some(n),
        None => Some(text),
    }
}

impl AppView {
    /// The effects that open the window.
    pub open spec fn open_window() -> Seq<EffectView> {
        seq![EffectView::OpenWindow, EffectView::SetActivationPolicy(true)]
    }

    /// The effects that bring the window to the front.
    pub open spec fn show_window(self) -> Seq<EffectView> {
        match self.window {
            Some(id) => seq![EffectView::FocusWindow(id)],
            None => AppView::open_window(),
        }
    }

    /// The state at the start, with what was stored. At the first run it goes straight to creating
    /// a profile.
    pub open spec fn initial(keys: Seq<AuthKeyView>, profiles: Seq<ProfileView>) -> AppView {
        AppView {
            window: None,
            profiles,
            keys,
            selection: if profiles.len() > 0 {
                SelectionView::Profile(profiles[0].id)
            } else {
                SelectionView::Logs
            },
            profile_form: if profiles.len() > 0 {
                None
            } else {
                Some(ProfileFormView::adding(Seq::empty()))
            },
            key_form: None,
            forward_form: None,
            confirm_delete: None,
            confirm_delete_key: None,
            confirm_export_key: None,
            notice: None,
            conn_path_modal: None,
            io_notice: None,
            forward_errors: Map::empty(),
            routed_caches: Map::empty(),
            log_revision: u64::MAX,
            log_filter: None,
            log_text: Seq::empty(),
            snapshots: Map::empty(),
        }
    }

    /// The state with another row selected: every form, question and notice is closed.
    pub open spec fn selecting(self, selection: SelectionView) -> AppView {
        AppView {
            selection,
            profile_form: None,
            key_form: None,
            forward_form: None,
            confirm_delete: None,
            confirm_delete_key: None,
            confirm_export_key: None,
            notice: None,
            conn_path_modal: None,
            ..self
        }
    }

    /// Connecting a profile: its session starts if its key has a secret and it has a server, and
    /// otherwise what is missing is asked for.
    pub open spec fn connecting(self, id: Seq<char>) -> Outcome {
        match profile_with_id(self.profiles, id) {
            None => quietly(self),
            Some(p) => match key_with_id(self.keys, p.auth_key_id) {
                Some(key) => if key.secret.len() == 0 {
                    (
                        AppView {
                            selection: SelectionView::Keys,
                            profile_form: None,
                            key_form: Some(KeyFormView::editing(key)),
                            notice: Some(
                                quoted(
                                    "Re-enter the secret of key \""@,
                                    key.name,
                                    "\" to connect."@,
                                ),
                            ),
                            ..self
                        },
                        self.show_window(),
                    )
                } else if p.server_node_id.len() == 0 {
                    self.asking_for(p, "Enter the server node id to connect."@)
                } else {
                    (self, seq![EffectView::Connect { profile: p, secret: key.secret }])
                },
                None => self.asking_for(p, "Pick an auth key to connect."@),
            },
        }
    }

    /// A profile's form is opened for what it lacks.
    pub open spec fn asking_for(self, p: ProfileView, notice: Seq<char>) -> Outcome {
        (
            AppView {
                selection: SelectionView::Profile(p.id),
                profile_form: Some(ProfileFormView::editing(p)),
                notice: Some(notice),
                ..self
            },
            self.show_window(),
        )
    }

    /// Deleting a profile: the first click only asks.
    pub open spec fn deleting_profile(self, id: Seq<char>) -> Outcome {
        if self.confirm_delete != Some(id) {
            quietly(AppView { confirm_delete: Some(id), ..self })
        } else {
            match position(self.profiles, id) {
                None => quietly(AppView { confirm_delete: None, ..self }),
                Some(pos) => self.without_profile(id, pos),
            }
        }
    }

    /// The profile at `pos` is gone, with its session and all that was known of it. The key that
    /// it refers to stays.
    pub open spec fn without_profile(self, id: Seq<char>, pos: int) -> Outcome {
        let removed = self.profiles[pos];
        let profiles = self.profiles.remove(pos);
        let filtered = self.log_filter == Some(removed.name);
        let next = if pos < profiles.len() {
            pos
        } else {
            profiles.len() - 1
        };
        (
            AppView {
                profiles,
                confirm_delete: None,
                forward_errors: without_errors(self.forward_errors, removed.forwards),
                routed_caches: self.routed_caches.remove(id),
                snapshots: self.snapshots.remove(id),
                forward_form: None,
                log_filter: if filtered {
                    None
                } else {
                    self.log_filter
                },
                selection: if self.selection != SelectionView::Profile(id) {
                    self.selection
                } else if profiles.len() > 0 {
                    SelectionView::Profile(profiles[next].id)
                } else {
                    SelectionView::Logs
                },
                profile_form: if profiles.len() > 0 {
                    self.profile_form
                } else {
                    Some(ProfileFormView::adding(Seq::empty()))
                },
                ..self
            },
            if filtered {
                seq![EffectView::RemoveProfile(id), EffectView::ReadLogs, EffectView::Persist]
            } else {
                seq![EffectView::RemoveProfile(id), EffectView::Persist]
            },
        )
    }

    /// What an entry of the tray menu does.
    pub open spec fn menu(self, id: Seq<char>) -> Outcome {
        if id == MENU_OPEN@ {
            (self, self.show_window())
        } else if id == MENU_QUIT@ {
            (self, seq![EffectView::Shutdown, EffectView::Exit])
        } else if let Some(profile_id) = after_prefix(id, MENU_CONNECT_PREFIX@) {
            self.connecting(profile_id)
        } else if let Some(profile_id) = after_prefix(id, MENU_DISCONNECT_PREFIX@) {
            (self, seq![EffectView::Disconnect(profile_id)])
        } else if let Some(profile_id) = after_prefix(id, MENU_COPY_SOCKS_PREFIX@) {
            if self.snapshots.contains_key(profile_id) {
                match self.snapshots[profile_id].socks_addr {
                    Some(addr) => (self, seq![EffectView::CopyText("socks5://"@ + addr)]),
                    None => quietly(self),
                }
            } else {
                quietly(self)
            }
        } else {
            quietly(self)
        }
    }

    /// A refresh: forwards whose setup failed are switched off, with the reason kept, and the
    /// sessions and the store learn of it.
    pub open spec fn refreshing(self, snapshots: Map<Seq<char>, SnapshotView>, revision: u64) -> Outcome {
        let r = refreshed(self.profiles, snapshots, self.forward_errors, self.routed_caches);
        (
            AppView {
                snapshots,
                profiles: r.profiles,
                forward_errors: r.errors,
                routed_caches: r.caches,
                log_revision: revision,
                ..self
            },
            set_forwards(r.profiles, r.failed_in) + (if r.failed_in.len() > 0 {
                seq![EffectView::Persist]
            } else {
                Seq::empty()
            }) + (if revision != self.log_revision {
                seq![EffectView::ReadLogs]
            } else {
                Seq::empty()
            }) + seq![EffectView::SyncTray],
        )
    }

    /// Whether the session of a profile runs.
    pub open spec fn runs(self, id: Seq<char>) -> bool {
        self.snapshots.contains_key(id) && is_running(self.snapshots[id].phase)
    }

    /// Whether the log filter follows the renaming of a profile.
    pub open spec fn filter_follows(self, p: ProfileView) -> bool {
        match position(self.profiles, p.id) {
            Some(pos) => self.log_filter == Some(self.profiles[pos].name) && self.profiles[pos].name
                != p.name,
            None => false,
        }
    }

    /// Saving the profile form, if what it holds is accepted.
    pub open spec fn saving_profile(self, fresh: Seq<char>) -> Outcome {
        match self.profile_form {
            None => quietly(self),
            Some(form) => match form.checked(self.profiles, self.keys, fresh) {
                Err(_) => quietly(self),
                Ok(p) => (
                    AppView {
                        profiles: saved(self.profiles, p),
                        log_filter: if self.filter_follows(p) {
                            Some(p.name)
                        } else {
                            self.log_filter
                        },
                        notice: notice_or(
                            self.notice,
                            if self.runs(p.id) {
                                "Saved — reconnect to apply."@
                            } else {
                                "Saved."@
                            },
                        ),
                        selection: SelectionView::Profile(p.id),
                        profile_form: None,
                        ..self
                    },
                    if self.filter_follows(p) {
                        seq![EffectView::ReadLogs, EffectView::Persist]
                    } else {
                        seq![EffectView::Persist]
                    },
                ),
            },
        }
    }

    /// Creating the key that the profile form's prompt asks for: it joins the list and is picked
    /// in the form.
    pub open spec fn creating_key(self, generated: GeneratedKey, fresh: Seq<char>) -> Outcome {
        match self.profile_form {
            Some(form) => match form.new_key_name {
                Some(buffer) => match key_name(buffer, self.keys, None) {
                    Ok(name) => (
                        AppView {
                            keys: self.keys.push(
                                AuthKeyView {
                                    id: fresh,
                                    name,
                                    public_key: generated.public_key@,
                                    secret: generated.secret@,
                                },
                            ),
                            profile_form: Some(
                                ProfileFormView {
                                    auth_key_id: fresh,
                                    new_key_name: None,
                                    ..form
                                },
                            ),
                            ..self
                        },
                        seq![
                            EffectView::Persist,
                            EffectView::SaveKeySecret { id: fresh, secret: generated.secret@ },
                        ],
                    ),
                    Err(_) => quietly(self),
                },
                None => quietly(self),
            },
            None => quietly(self),
        }
    }

    /// Whether saving a key changes a stored secret.
    pub open spec fn changes_secret(self, key: AuthKeyView) -> bool {
        match position(self.keys, key.id) {
            Some(pos) => self.keys[pos].secret != key.secret,
            None => true,
        }
    }

    /// Saving the key form, if what it holds is accepted.
    pub open spec fn saving_key(self, parsed: Result<Seq<char>, Seq<char>>, fresh: Seq<char>) -> Outcome {
        match self.key_form {
            None => quietly(self),
            Some(form) => match form.checked(self.keys, parsed, fresh) {
                Err(_) => quietly(self),
                Ok(key) => (
                    AppView {
                        keys: saved(self.keys, key),
                        notice: notice_or(
                            self.notice,
                            "Saved — profiles using this key apply it on reconnect."@,
                        ),
                        key_form: None,
                        ..self
                    },
                    if self.changes_secret(key) {
                        seq![
                            EffectView::Persist,
                            EffectView::SaveKeySecret { id: key.id, secret: key.secret },
                        ]
                    } else {
                        seq![EffectView::Persist]
                    },
                ),
            },
        }
    }

    /// Deleting a key: one that a profile uses stays, and the first click only asks.
    pub open spec fn deleting_key(self, id: Seq<char>) -> Outcome {
        let s = AppView { confirm_export_key: None, ..self };
        match key_user(s.profiles, id) {
            Some(user) => quietly(
                AppView {
                    notice: Some(
                        quoted(
                            "This key is used by profile \""@,
                            user.name,
                            "\" — repoint or delete that profile first."@,
                        ),
                    ),
                    confirm_delete_key: None,
                    ..s
                },
            ),
            None => if s.confirm_delete_key != Some(id) {
                quietly(AppView { confirm_delete_key: Some(id), ..s })
            } else {
                (
                    AppView {
                        confirm_delete_key: None,
                        keys: without(s.keys, id),
                        key_form: None,
                        ..s
                    },
                    seq![EffectView::Persist, EffectView::DeleteKeySecret(id)],
                )
            },
        }
    }

    /// Exporting a key: the first click only asks, the second copies its secret.
    pub open spec fn exporting_key(self, id: Seq<char>) -> Outcome {
        let s = AppView { confirm_delete_key: None, ..self };
        if s.confirm_export_key != Some(id) {
            quietly(AppView { confirm_export_key: Some(id), ..s })
        } else {
            let t = AppView { confirm_export_key: None, ..s };
            match key_with_id(t.keys, id) {
                Some(key) => if key.secret.len() > 0 {
                    (
                        AppView {
                            notice: Some(
                                quoted(
                                    "Secret key of \""@,
                                    key.name,
                                    "\" copied — paste it into the key form of another install."@,
                                ),
                            ),
                            ..t
                        },
                        seq![EffectView::CopyText(key.secret)],
                    )
                } else {
                    quietly(t)
                },
                None => quietly(t),
            }
        }
    }

    /// Saving the forward form, if what it holds is accepted and its profile is there.
    pub open spec fn saving_forward(self, fresh: Seq<char>) -> Outcome {
        match self.forward_form {
            None => quietly(self),
            Some((profile_id, form)) => match form.checked(self.profiles, fresh) {
                Err(_) => quietly(self),
                Ok(forward) => match position(self.profiles, profile_id) {
                    None => quietly(self),
                    Some(pos) => (
                        AppView {
                            forward_errors: if forward.enabled {
                                self.forward_errors.remove(forward.id)
                            } else {
                                self.forward_errors
                            },
                            profiles: with_forward(self.profiles, pos, forward),
                            forward_form: None,
                            ..self
                        },
                        commit_forwards(with_forward(self.profiles, pos, forward), profile_id),
                    ),
                },
            },
        }
    }

    /// Deleting a forward, if it is there.
    pub open spec fn deleting_forward(self, profile_id: Seq<char>, forward_id: Seq<char>) -> Outcome {
        match position(self.profiles, profile_id) {
            None => quietly(self),
            Some(pos) => {
                let p = self.profiles[pos];
                let forwards = without(p.forwards, forward_id);
                let profiles = self.profiles.update(pos, ProfileView { forwards, ..p });
                if forwards.len() == p.forwards.len() {
                    quietly(self)
                } else {
                    (
                        AppView {
                            profiles,
                            forward_errors: self.forward_errors.remove(forward_id),
                            ..self
                        },
                        commit_forwards(profiles, profile_id),
                    )
                }
            },
        }
    }

    /// Switching a forward on or off, if it is there. A new attempt forgets the old failure.
    pub open spec fn toggling_forward(
        self,
        profile_id: Seq<char>,
        forward_id: Seq<char>,
        enabled: bool,
    ) -> Outcome {
        match position(self.profiles, profile_id) {
            None => quietly(self),
            Some(pos) => {
                let p = self.profiles[pos];
                match position(p.forwards, forward_id) {
                    None => quietly(self),
                    Some(k) => {
                        let forwards = p.forwards.update(
                            k,
                            PortForwardView { enabled, ..p.forwards[k] },
                        );
                        let profiles = self.profiles.update(pos, ProfileView { forwards, ..p });
                        (
                            AppView {
                                profiles,
                                forward_errors: if enabled {
                                    self.forward_errors.remove(forward_id)
                                } else {
                                    self.forward_errors
                                },
                                ..self
                            },
                            commit_forwards(profiles, profile_id),
                        )
                    },
                }
            },
        }
    }

    /// Opening the form of a forward, if it is there.
    pub open spec fn editing_forward(self, profile_id: Seq<char>, forward_id: Seq<char>) -> AppView {
        match profile_with_id(self.profiles, profile_id) {
            None => self,
            Some(p) => match position(p.forwards, forward_id) {
                None => self,
                Some(k) => AppView {
                    forward_form: Some((profile_id, ForwardFormView::editing(p.forwards[k]))),
                    ..self
                },
            },
        }
    }

    /// Taking in imported profiles. What failed in the forwards that they replace is forgotten.
    pub open spec fn importing(self, imported: Seq<ProfileView>, fresh: Seq<FreshIdsView>) -> Outcome {
        let m = merged(self.profiles, imported, fresh);
        let selected = match self.selection {
            SelectionView::Profile(id) => profile_with_id(m.profiles, id) is Some,
            _ => false,
        };
        (
            AppView {
                profiles: m.profiles,
                forward_errors: without_errors_of(
                    self.forward_errors,
                    self.profiles,
                    m.replaced,
                ),
                io_notice: Some(
                    "Imported: "@ + decimal(m.added) + " added, "@ + decimal(m.replaced.len())
                        + " replaced."@,
                ),
                selection: if !selected && m.profiles.len() > 0 {
                    SelectionView::Profile(m.profiles[0].id)
                } else {
                    self.selection
                },
                profile_form: None,
                ..self
            },
            set_forwards(m.profiles, m.replaced).push(EffectView::Persist),
        )
    }
}

/// The profile form after a message, if it is open and the message is about it.
pub open spec fn edited_profile_form(f: ProfileFormView, m: Message) -> ProfileFormView {
    match m {
        Message::ProfileNameChanged(v) => ProfileFormView { name: v@, ..f },
        Message::ServerNodeIdChanged(v) => ProfileFormView { server_node_id: v@, ..f },
        Message::AuthKeyPicked(choice) => ProfileFormView { auth_key_id: choice.id@, ..f },
        Message::NewKeyPrompt => if f.new_key_name is None {
            ProfileFormView { new_key_name: Some(Seq::empty()), ..f }
        } else {
            f
        },
        Message::NewKeyNameChanged(v) => if f.new_key_name is Some {
            ProfileFormView { new_key_name: Some(v@), ..f }
        } else {
            f
        },
        Message::NewKeyCancel => ProfileFormView { new_key_name: None, ..f },
        Message::SocksEnabledToggled(enabled) => ProfileFormView { socks_enabled: enabled, ..f },
        Message::SocksPortChanged(v) => ProfileFormView { socks_port: v@, ..f },
        Message::HttpEnabledToggled(enabled) => ProfileFormView { http_enabled: enabled, ..f },
        Message::HttpPortChanged(v) => ProfileFormView { http_port: v@, ..f },
        Message::RelayUrlsChanged(v) => ProfileFormView { relay_urls: v@, ..f },
        Message::RelayAuthTokenChanged(v) => ProfileFormView { relay_auth_token: v@, ..f },
        _ => f,
    }
}

/// The key form after a message, if it is open and the message is about it.
pub open spec fn edited_key_form(f: KeyFormView, m: Message) -> KeyFormView {
    match m {
        Message::KeyNameChanged(v) => KeyFormView { name: v@, ..f },
        Message::KeySecretChanged(v) => KeyFormView { secret: v@, ..f },
        Message::KeyGenerateSecret(generated) => KeyFormView { secret: generated.secret@, ..f },
        _ => f,
    }
}

/// The forward form after a message, if it is open and the message is about it.
pub open spec fn edited_forward_form(f: ForwardFormView, m: Message) -> ForwardFormView {
    match m {
        Message::FormLabelChanged(v) => ForwardFormView { label: v@, ..f },
        Message::FormLocalPortChanged(v) => ForwardFormView { local_port: v@, ..f },
        Message::FormRemoteHostChanged(v) => ForwardFormView { remote_host: v@, ..f },
        Message::FormRemotePortChanged(v) => ForwardFormView { remote_port: v@, ..f },
        Message::FormEnabledToggled(enabled) => ForwardFormView { enabled, ..f },
        _ => f,
    }
}

/// The state with the open forms edited by a message.
pub open spec fn edited(s: AppView, m: Message) -> AppView {
    AppView {
        profile_form: match s.profile_form {
            Some(f) => Some(edited_profile_form(f, m)),
            None => None,
        },
        key_form: match s.key_form {
            Some(f) => Some(edited_key_form(f, m)),
            None => None,
        },
        forward_form: match s.forward_form {
            Some((id, f)) => Some((id, edited_forward_form(f, m))),
            None => None,
        },
        ..s
    }
}

/// What a message makes of the state, and what it has done.
pub open spec fn step(s: AppView, m: Message, fresh: NewIdsView) -> Outcome {
    match m {
        Message::Tick(o) => s.refreshing(o.snapshots@, o.log_revision),
        Message::SetupTray(o) => {
            let (t, effects) = s.refreshing(o.snapshots@, o.log_revision);
            (
                t,
                seq![EffectView::SetActivationPolicy(s.window is Some), EffectView::CreateTray]
                    + effects,
            )
        },
        Message::TrayMenu(id) => s.menu(id@),
        Message::TrayIcon(click) => if click == TrayClick::Toggle {
            match s.window {
                Some(id) => (AppView { window: None, ..s }, seq![EffectView::CloseWindow(id)]),
                None => (s, AppView::open_window()),
            }
        } else {
            quietly(s)
        },
        Message::WindowOpened => quietly(s),
        Message::WindowCreated(id) => quietly(AppView { window: Some(id), ..s }),
        Message::WindowClosed(id) => if s.window == Some(id) {
            (AppView { window: None, ..s }, seq![EffectView::SetActivationPolicy(false)])
        } else {
            quietly(s)
        },
        Message::Select(selection) => quietly(s.selecting(selection@)),
        Message::CopyText(text) => (s, seq![EffectView::CopyText(text@)]),
        Message::ShowConnPath => match s.selection {
            SelectionView::Profile(id) => (s, seq![EffectView::QueryConnPath(id)]),
            _ => quietly(s),
        },
        Message::ConnPath(path) => quietly(AppView { conn_path_modal: Some(path@), ..s }),
        Message::DismissConnPath => quietly(AppView { conn_path_modal: None, ..s }),
        Message::AddProfile => quietly(
            AppView {
                profile_form: Some(ProfileFormView::adding(s.profiles)),
                key_form: None,
                forward_form: None,
                confirm_delete: None,
                notice: None,
                ..s
            },
        ),
        Message::EditProfile(id) => match profile_with_id(s.profiles, id@) {
            Some(p) => quietly(
                AppView {
                    profile_form: Some(ProfileFormView::editing(p)),
                    key_form: None,
                    forward_form: None,
                    notice: None,
                    ..s
                },
            ),
            None => quietly(s),
        },
        Message::DeleteProfile(id) => s.deleting_profile(id@),
        Message::Connect(id) => s.connecting(id@),
        Message::Disconnect(id) => (s, seq![EffectView::Disconnect(id@)]),
        Message::ExportProfiles => (s, seq![EffectView::PickExportFile]),
        Message::ImportProfiles => (s, seq![EffectView::PickImportFile]),
        Message::ExportPicked(path) => match path {
            Some(path) => (s, seq![EffectView::ExportProfiles(path@)]),
            None => quietly(s),
        },
        Message::ImportPicked(path) => match path {
            Some(path) => (s, seq![EffectView::ImportProfiles(path@)]),
            None => quietly(s),
        },
        Message::ExportDone(outcome) => quietly(
            AppView {
                io_notice: Some(
                    match outcome {
                        Ok(_) => "Exported "@ + decimal(s.profiles.len()) + " profile(s)."@,
                        Err(e) => "Export failed: "@ + e@,
                    },
                ),
                ..s
            },
        ),
        Message::ImportRead(outcome) => match outcome {
            Ok(imported) => s.importing(profile_views(imported@), fresh.imports),
            Err(e) => quietly(AppView { io_notice: Some("Import failed: "@ + e@), ..s }),
        },
        Message::NewKeyCreate(generated) => s.creating_key(generated, fresh.id),
        Message::AddKey => quietly(
            AppView {
                key_form: Some(KeyFormView::adding()),
                confirm_delete_key: None,
                confirm_export_key: None,
                notice: None,
                ..s
            },
        ),
        Message::EditKey(id) => match key_with_id(s.keys, id@) {
            Some(key) => quietly(
                AppView {
                    key_form: Some(KeyFormView::editing(key)),
                    confirm_delete_key: None,
                    confirm_export_key: None,
                    notice: None,
                    ..s
                },
            ),
            None => quietly(s),
        },
        Message::DeleteKey(id) => s.deleting_key(id@),
        Message::ExportKey(id) => s.exporting_key(id@),
        Message::KeyFormSave(parsed) => s.saving_key(checked_text(parsed), fresh.id),
        Message::KeyFormCancel => quietly(AppView { key_form: None, ..s }),
        Message::ProfileFormSave => s.saving_profile(fresh.id),
        Message::ProfileFormCancel => quietly(AppView { profile_form: None, ..s }),
        Message::AddForward(profile_id) => quietly(
            AppView { forward_form: Some((profile_id@, ForwardFormView::adding())), ..s },
        ),
        Message::EditForward(profile_id, forward_id) => quietly(
            s.editing_forward(profile_id@, forward_id@),
        ),
        Message::DeleteForward(profile_id, forward_id) => s.deleting_forward(
            profile_id@,
            forward_id@,
        ),
        Message::ToggleForward(profile_id, forward_id, enabled) => s.toggling_forward(
            profile_id@,
            forward_id@,
            enabled,
        ),
        Message::FormSave => s.saving_forward(fresh.id),
        Message::FormCancel => quietly(AppView { forward_form: None, ..s }),
        Message::LogFilterChanged(value) => (
            AppView {
                log_filter: if value@ == LOG_FILTER_ALL@ {
                    None
                } else {
                    Some(value@)
                },
                ..s
            },
            seq![EffectView::ReadLogs],
        ),
        Message::OpenLogFolder => (s, seq![EffectView::OpenLogFolder]),
        Message::CopyLogs => (s, seq![EffectView::CopyText(s.log_text)]),
        Message::LogLines(lines) => quietly(
            AppView { log_text: log_text(strings(lines@), s.log_filter), ..s },
        ),
        Message::SaveFailed(e) => quietly(
            AppView { notice: Some("Failed to save profiles: "@ + e@), ..s },
        ),
        _ => quietly(edited(s, m)),
    }
}

/// Whether there are new ids enough for all that a message may create.
pub open spec fn enough_ids(m: Message, fresh: NewIds) -> bool {
    m matches Message::ImportRead(Ok(imported)) ==> {
        &&& fresh.imports@.len() >= imported@.len()
        &&& forall|i: int|
            0 <= i < imported@.len() ==> (#[trigger] fresh.imports@[i]).forwards@.len()
                >= imported@[i].forwards@.len()
    }
}

/// Whether there is a new identifier for each thing that a message may create.
pub open spec fn new_ids_fit(fresh: NewIdsView, m: Message) -> bool {
    &&& is_id(fresh.id)
    &&& m matches Message::ImportRead(Ok(imported)) ==> ids_fit(
        fresh.imports,
        profile_views(imported@),
    )
}

} // verus!
