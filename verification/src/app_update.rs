//! How the desktop app takes its messages.

use vstd::prelude::*;
use vstd::string::*;

use crate::app::{
    commit_forwards, edited, enough_ids, key_user, lines_with, log_text, new_ids_fit, refreshed,
    set_forwards, step, with_errors, without_errors, without_errors_of, App, AppView, NewIds, NewIdsView,
    LOG_FILTER_ALL, MENU_CONNECT_PREFIX, MENU_COPY_SOCKS_PREFIX, MENU_DISCONNECT_PREFIX, MENU_OPEN,
    MENU_QUIT,
};
use crate::config::{find_key, key_views, profile_views, AuthKey, Profile, ProfileView};
use crate::forms::{find_profile, opt_profile, profile_with_id, ProfileForm};
use crate::forward_form::ForwardForm;
use crate::forwards::{
    checked_text, clone_forwards, disable_failed_forwards, forward_views, Checked, PortForward,
};
use crate::ids::random_id;
use crate::key_form::{validate_key_name, KeyForm};
use crate::merge::{draw_fresh_ids, fresh_views, merge_imported_with_ids, FreshIds};
use crate::message::{
    effect_views, no_effects, one_effect, push_effect, two_effects, Effect, EffectView,
    GeneratedKey, Message, Observed, Selection, TrayClick,
};
use crate::ports::quote;
use crate::records::{drop_records, find_position, profile_position, save_record};
use crate::roster::views;
use crate::session::{Snapshot, SnapshotView};
use crate::store::Store;
use crate::table::Table;
use crate::text::{
    contains, join_strings, pair_views, push_decimal, same_text, strings, strip_prefix,
};

verus! {

spec fn edits_profile_form(m: Message) -> bool {
    ||| m is ProfileNameChanged
    ||| m is ServerNodeIdChanged
    ||| m is AuthKeyPicked
    ||| m is NewKeyPrompt
    ||| m is NewKeyNameChanged
    ||| m is NewKeyCancel
    ||| m is SocksEnabledToggled
    ||| m is SocksPortChanged
    ||| m is HttpEnabledToggled
    ||| m is HttpPortChanged
    ||| m is RelayUrlsChanged
    ||| m is RelayAuthTokenChanged
}

spec fn edits_key_form(m: Message) -> bool {
    m is KeyNameChanged || m is KeySecretChanged || m is KeyGenerateSecret
}

spec fn edits_forward_form(m: Message) -> bool {
    ||| m is FormLabelChanged
    ||| m is FormLocalPortChanged
    ||| m is FormRemoteHostChanged
    ||| m is FormRemotePortChanged
    ||| m is FormEnabledToggled
}

fn first_key_user<'a>(profiles: &'a [Profile], id: &str) -> (r: Option<&'a Profile>)
    ensures
        opt_profile(r) == key_user(profile_views(profiles@), id@),
{
    let ghost all = profile_views(profiles@);
    assert(all.skip(0) == all);
    let mut i: usize = 0;
    while i < profiles.len()
        invariant
            i <= profiles.len(),
            all == profile_views(profiles@),
            key_user(all, id@) == key_user(all.skip(i as int), id@),
        decreases profiles.len() - i,
    {
        assert(all.skip(i as int)[0] == profiles@[i as int]@);
        if same_text(profiles[i].auth_key_id.as_str(), id) {
            return Some(&profiles[i]);
        }
        assert(all.skip(i as int).drop_first() == all.skip(i + 1));
        i += 1;
    }
    None
}

fn drop_errors(errors: &mut Table<String>, forwards: &Vec<PortForward>)
    ensures
        final(errors)@ == without_errors(old(errors)@, forward_views(forwards@)),
{
    let ghost all = forward_views(forwards@);
    let mut i: usize = 0;
    while i < forwards.len()
        invariant
            i <= forwards.len(),
            all == forward_views(forwards@),
            errors@ == without_errors(old(errors)@, all.take(i as int)),
        decreases forwards.len() - i,
    {
        assert(all.take(i + 1).drop_last() == all.take(i as int));
        assert(all.take(i + 1).last() == forwards@[i as int]@);
        errors.remove(forwards[i].id.as_str());
        i += 1;
    }
    assert(all.take(all.len() as int) == all);
}

fn copy_profiles(profiles: &Vec<Profile>) -> (r: Vec<Profile>)
    ensures
        profile_views(r@) == profile_views(profiles@),
{
    let mut out: Vec<Profile> = Vec::new();
    let mut i: usize = 0;
    while i < profiles.len()
        invariant
            i <= profiles.len(),
            out@.len() == i,
            forall|j: int| 0 <= j < i ==> (#[trigger] out@[j])@ == profiles@[j]@,
        decreases profiles.len() - i,
    {
        out.push(profiles[i].clone());
        i += 1;
    }
    assert(profile_views(out@) == profile_views(profiles@));
    out
}

fn drop_errors_of(errors: &mut Table<String>, profiles: &Vec<Profile>, ids: &Vec<String>)
    ensures
        final(errors)@ == without_errors_of(
            old(errors)@,
            profile_views(profiles@),
            strings(ids@),
        ),
{
    let ghost all = strings(ids@);
    let ghost known = profile_views(profiles@);
    let mut i: usize = 0;
    assert(errors@ == without_errors_of(old(errors)@, known, all.take(0)));
    while i < ids.len()
        invariant
            i <= ids.len(),
            all == strings(ids@),
            known == profile_views(profiles@),
            errors@ == without_errors_of(old(errors)@, known, all.take(i as int)),
        decreases ids.len() - i,
    {
        assert(all.take(i + 1).drop_last() == all.take(i as int));
        assert(all.take(i + 1).last() == ids@[i as int]@);
        if let Some(p) = find_profile(profiles.as_slice(), ids[i].as_str()) {
            drop_errors(errors, &p.forwards);
        }
        i += 1;
    }
    assert(all.take(all.len() as int) == all);
}

fn add_errors(errors: &mut Table<String>, failed: Vec<(String, String)>)
    ensures
        final(errors)@ == with_errors(old(errors)@, pair_views(failed@)),
{
    let ghost all = pair_views(failed@);
    let mut i: usize = 0;
    while i < failed.len()
        invariant
            i <= failed.len(),
            all == pair_views(failed@),
            errors@ == with_errors(old(errors)@, all.take(i as int)),
        decreases failed.len() - i,
    {
        assert(all.take(i + 1).drop_last() == all.take(i as int));
        assert(all.take(i + 1).last() == (failed@[i as int].0@, failed@[i as int].1@));
        errors.insert(failed[i].0.clone(), failed[i].1.clone());
        i += 1;
    }
    assert(all.take(all.len() as int) == all);
}

fn keep_lines(lines: &Vec<String>, part: &str) -> (r: Vec<String>)
    ensures
        strings(r@) == lines_with(strings(lines@), part@),
{
    let ghost all = strings(lines@);
    let mut out: Vec<String> = Vec::new();
    let mut i: usize = 0;
    assert(strings(out@) == lines_with(all.take(0), part@));
    while i < lines.len()
        invariant
            i <= lines.len(),
            all == strings(lines@),
            strings(out@) == lines_with(all.take(i as int), part@),
        decreases lines.len() - i,
    {
        assert(all.take(i + 1).drop_last() == all.take(i as int));
        assert(all.take(i + 1).last() == lines@[i as int]@);
        let ghost before = out@;
        if contains(lines[i].as_str(), part) {
            let line = lines[i].clone();
            out.push(line);
            assert(strings(out@) == strings(before).push(lines@[i as int]@));
        }
        i += 1;
    }
    assert(all.take(all.len() as int) == all);
    out
}

fn push_set_forwards(effects: &mut Vec<Effect>, profiles: &Vec<Profile>, ids: &Vec<String>)
    ensures
        effect_views(final(effects)@) == effect_views(old(effects)@) + set_forwards(
            profile_views(profiles@),
            strings(ids@),
        ),
{
    let ghost all = strings(ids@);
    let ghost known = profile_views(profiles@);
    let ghost start = effect_views(effects@);
    let mut i: usize = 0;
    assert(effect_views(effects@) == start + set_forwards(known, all.take(0)));
    while i < ids.len()
        invariant
            i <= ids.len(),
            all == strings(ids@),
            known == profile_views(profiles@),
            effect_views(effects@) == start + set_forwards(known, all.take(i as int)),
        decreases ids.len() - i,
    {
        assert(all.take(i + 1).drop_last() == all.take(i as int));
        assert(all.take(i + 1).last() == ids@[i as int]@);
        if let Some(p) = find_profile(profiles.as_slice(), ids[i].as_str()) {
            push_effect(
                effects,
                Effect::SetForwards {
                    profile_id: ids[i].clone(),
                    forwards: clone_forwards(&p.forwards),
                },
            );
        }
        assert(effect_views(effects@) == start + set_forwards(known, all.take(i + 1)));
        i += 1;
    }
    assert(all.take(all.len() as int) == all);
}

fn prefixed(before: &str, text: &str) -> (r: String)
    ensures
        r@ == before@ + text@,
{
    let mut out = String::from_str(before);
    out.append(text);
    out
}

impl App {
    /// The app at its start, with what was stored, or with nothing where that could not be loaded.
    pub fn boot(stored: Result<Store, String>) -> (r: (Self, Vec<Effect>))
        ensures
            r.0@ == (match stored {
                Ok(store) => AppView::initial(store@.keys, store@.profiles),
                Err(_) => AppView::initial(Seq::empty(), Seq::empty()),
            }),
            effect_views(r.1@) == AppView::open_window().push(EffectView::SetupTray),
    {
        let store = match stored {
            Ok(store) => store,
            Err(_) => Store::default(),
        };
        let selection = if store.profiles.len() > 0 {
            Selection::Profile(store.profiles[0].id.clone())
        } else {
            Selection::Logs
        };
        let profile_form = if store.profiles.len() > 0 {
            None
        } else {
            assert(profile_views(store.profiles@) == Seq::<ProfileView>::empty());
            Some(ProfileForm::add(store.profiles.as_slice()))
        };
        let app = App {
            window: None,
            profiles: store.profiles,
            keys: store.keys,
            selection,
            profile_form,
            key_form: None,
            forward_form: None,
            confirm_delete: None,
            confirm_delete_key: None,
            confirm_export_key: None,
            notice: None,
            conn_path_modal: None,
            io_notice: None,
            forward_errors: Table::new(),
            routed_caches: Table::new(),
            log_revision: u64::MAX,
            log_filter: None,
            log_text: String::new(),
            snapshots: Table::new(),
        };
        let mut effects = two_effects(Effect::OpenWindow, Effect::SetActivationPolicy(true));
        push_effect(&mut effects, Effect::SetupTray);
        assert(app@.log_text == Seq::<char>::empty());
        (app, effects)
    }

    /// The title of the window.
    pub fn title(&self) -> (r: &'static str)
        ensures
            r@ == "flextunnel"@,
    {
        "flextunnel"
    }

    /// The profile with the given id.
    pub fn profile(&self, id: &str) -> (r: Option<&Profile>)
        ensures
            opt_profile(r) == profile_with_id(self@.profiles, id@),
    {
        find_profile(self.profiles.as_slice(), id)
    }

    /// What is known of a profile's session; before its first one, that it is idle.
    pub fn snapshot_for(&self, id: &str) -> (r: Snapshot)
        ensures
            r@ == (if self@.snapshots.contains_key(id@) {
                self@.snapshots[id@]
            } else {
                SnapshotView::idle()
            }),
    {
        match self.snapshots.get(id) {
            Some(snapshot) => snapshot.clone(),
            None => Snapshot::empty(),
        }
    }

    fn show_window(&self) -> (r: Vec<Effect>)
        ensures
            effect_views(r@) == self@.show_window(),
    {
        match self.window {
            Some(id) => one_effect(Effect::FocusWindow(id)),
            None => two_effects(Effect::OpenWindow, Effect::SetActivationPolicy(true)),
        }
    }

    fn ask_for(&mut self, profile: &Profile, notice: &str) -> (r: Vec<Effect>)
        ensures
            (final(self)@, effect_views(r@)) == old(self)@.asking_for(profile@, notice@),
    {
        self.selection = Selection::Profile(profile.id.clone());
        self.profile_form = Some(ProfileForm::edit(profile));
        self.notice = Some(String::from_str(notice));
        self.show_window()
    }

    fn connect_profile(&mut self, id: &str) -> (r: Vec<Effect>)
        ensures
            (final(self)@, effect_views(r@)) == old(self)@.connecting(id@),
    {
        let profile = match self.profile(id) {
            Some(profile) => profile.clone(),
            None => {
                return no_effects();
            },
        };
        let key = match find_key(self.keys.as_slice(), profile.auth_key_id.as_str()) {
            Some(key) => key.clone(),
            None => {
                return self.ask_for(&profile, "Pick an auth key to connect.");
            },
        };
        if key.secret.as_str().is_empty() {
            self.selection = Selection::Keys;
            self.profile_form = None;
            self.key_form = Some(KeyForm::edit(&key));
            self.notice = Some(
                quote("Re-enter the secret of key \"", key.name.as_str(), "\" to connect."),
            );
            self.show_window()
        } else if profile.server_node_id.as_str().is_empty() {
            self.ask_for(&profile, "Enter the server node id to connect.")
        } else {
            one_effect(Effect::Connect { profile, secret: key.secret })
        }
    }

    fn delete_profile(&mut self, id: String) -> (r: Vec<Effect>)
        ensures
            (final(self)@, effect_views(r@)) == old(self)@.deleting_profile(id@),
    {
        let asked = match &self.confirm_delete {
            Some(asked) => same_text(asked.as_str(), id.as_str()),
            None => false,
        };
        if !asked {
            self.confirm_delete = Some(id);
            return no_effects();
        }
        self.confirm_delete = None;
        let pos = match profile_position(self.profiles.as_slice(), id.as_str()) {
            Some(pos) => pos,
            None => {
                return no_effects();
            },
        };
        let ghost profiles = profile_views(self.profiles@);
        let mut effects = one_effect(Effect::RemoveProfile(id.clone()));
        let removed = self.profiles.remove(pos);
        assert(profile_views(self.profiles@) == profiles.remove(pos as int));
        assert(removed@ == profiles[pos as int]);
        drop_errors(&mut self.forward_errors, &removed.forwards);
        self.routed_caches.remove(id.as_str());
        self.snapshots.remove(id.as_str());
        self.forward_form = None;
        let filtered = match &self.log_filter {
            Some(name) => same_text(name.as_str(), removed.name.as_str()),
            None => false,
        };
        if filtered {
            self.log_filter = None;
            push_effect(&mut effects, Effect::ReadLogs);
        }
        push_effect(&mut effects, Effect::Persist);
        let selected = match &self.selection {
            Selection::Profile(other) => same_text(other.as_str(), id.as_str()),
            _ => false,
        };
        let n: usize = self.profiles.len();
        if selected {
            self.selection = if n == 0 {
                Selection::Logs
            } else if pos < n {
                Selection::Profile(self.profiles[pos].id.clone())
            } else {
                Selection::Profile(self.profiles[n - 1].id.clone())
            };
        }
        if n == 0 {
            assert(profile_views(self.profiles@) == Seq::<ProfileView>::empty());
            self.profile_form = Some(ProfileForm::add(self.profiles.as_slice()));
        }
        assert(effect_views(effects@) == old(self)@.deleting_profile(id@).1);
        effects
    }

    fn handle_menu_event(&mut self, id: &str) -> (r: Vec<Effect>)
        ensures
            (final(self)@, effect_views(r@)) == old(self)@.menu(id@),
    {
        if same_text(id, MENU_OPEN) {
            return self.show_window();
        }
        if same_text(id, MENU_QUIT) {
            return two_effects(Effect::Shutdown, Effect::Exit);
        }
        if let Some(profile_id) = strip_prefix(id, MENU_CONNECT_PREFIX) {
            return self.connect_profile(profile_id.as_str());
        }
        if let Some(profile_id) = strip_prefix(id, MENU_DISCONNECT_PREFIX) {
            return one_effect(Effect::Disconnect(profile_id));
        }
        if let Some(profile_id) = strip_prefix(id, MENU_COPY_SOCKS_PREFIX) {
            if let Some(snapshot) = self.snapshots.get(profile_id.as_str()) {
                if let Some(addr) = &snapshot.socks_addr {
                    return one_effect(Effect::CopyText(prefixed("socks5://", addr.as_str())));
                }
            }
        }
        no_effects()
    }

    fn refresh_profiles(&mut self) -> (failed_in: Vec<String>)
        ensures
            ({
                let r = refreshed(
                    old(self)@.profiles,
                    old(self)@.snapshots,
                    old(self)@.forward_errors,
                    old(self)@.routed_caches,
                );
                &&& strings(failed_in@) == r.failed_in
                &&& final(self)@ == (AppView {
                    profiles: r.profiles,
                    forward_errors: r.errors,
                    routed_caches: r.caches,
                    ..old(self)@
                })
            }),
    {
        let ghost start = self@;
        let ghost all = self@.profiles;
        let mut failed_in: Vec<String> = Vec::new();
        let mut i: usize = 0;
        assert(all.take(0) == Seq::<ProfileView>::empty());
        assert(strings(failed_in@) == Seq::<Seq<char>>::empty());
        assert(all == Seq::<ProfileView>::empty() + all.skip(0));
        while i < self.profiles.len()
            invariant
                i <= self.profiles@.len(),
                self.profiles@.len() == all.len(),
                all == start.profiles,
                ({
                    let r = refreshed(
                        all.take(i as int),
                        start.snapshots,
                        start.forward_errors,
                        start.routed_caches,
                    );
                    &&& strings(failed_in@) == r.failed_in
                    &&& r.profiles.len() == i
                    &&& self@ == (AppView {
                        profiles: r.profiles + all.skip(i as int),
                        forward_errors: r.errors,
                        routed_caches: r.caches,
                        ..start
                    })
                }),
            decreases self.profiles.len() - i,
        {
            let ghost before = self@;
            let ghost r = refreshed(
                all.take(i as int),
                start.snapshots,
                start.forward_errors,
                start.routed_caches,
            );
            assert(all.take(i + 1).drop_last() == all.take(i as int));
            assert(all.take(i + 1).last() == all[i as int]);
            assert(before.profiles[i as int] == all[i as int]);
            assert(self.profiles@[i as int]@ == all[i as int]);
            let mut p = self.profiles[i].clone();
            let known = match self.snapshots.get(p.id.as_str()) {
                Some(snapshot) => Some(snapshot.clone()),
                None => None,
            };
            match known {
                Some(snapshot) => {
                    let ghost failed_before = strings(failed_in@);
                    let failed = disable_failed_forwards(
                        &mut p.forwards,
                        snapshot.forwards.as_slice(),
                    );
                    let any = failed.len() > 0;
                    assert(pair_views(failed@).len() == failed@.len());
                    add_errors(&mut self.forward_errors, failed);
                    if any {
                        failed_in.push(p.id.clone());
                        assert(strings(failed_in@) == failed_before.push(p.id@));
                    }
                    self.routed_caches.insert(p.id.clone(), snapshot.routes);
                    let ghost next = p@;
                    self.profiles.set(i, p);
                    assert(profile_views(self.profiles@) == before.profiles.update(
                        i as int,
                        next,
                    ));
                    assert(before.profiles.update(i as int, next) == r.profiles.push(next)
                        + all.skip(i + 1));
                },
                None => {
                    assert(r.profiles + all.skip(i as int) == r.profiles.push(all[i as int])
                        + all.skip(i + 1));
                },
            }
            i += 1;
        }
        assert(all.take(all.len() as int) == all);
        proof {
            let r = refreshed(all, start.snapshots, start.forward_errors, start.routed_caches);
            assert(r.profiles + all.skip(i as int) == r.profiles);
        }
        failed_in
    }

    fn refresh(&mut self, observed: Observed, effects: &mut Vec<Effect>)
        ensures
            final(self)@ == old(self)@.refreshing(observed.snapshots@, observed.log_revision).0,
            effect_views(final(effects)@) == effect_views(old(effects)@) + old(self)@.refreshing(
                observed.snapshots@,
                observed.log_revision,
            ).1,
    {
        let ghost start = effect_views(effects@);
        self.snapshots = observed.snapshots;
        let failed_in = self.refresh_profiles();
        push_set_forwards(effects, &self.profiles, &failed_in);
        assert(strings(failed_in@).len() == failed_in@.len());
        if failed_in.len() > 0 {
            push_effect(effects, Effect::Persist);
        }
        if observed.log_revision != self.log_revision {
            self.log_revision = observed.log_revision;
            push_effect(effects, Effect::ReadLogs);
        }
        push_effect(effects, Effect::SyncTray);
        assert(effect_views(effects@) == start + old(self)@.refreshing(
            observed.snapshots@,
            observed.log_revision,
        ).1);
    }

    fn save_profile_form(&mut self, fresh: String) -> (r: Vec<Effect>)
        ensures
            (final(self)@, effect_views(r@)) == old(self)@.saving_profile(fresh@),
    {
        let profile = match &self.profile_form {
            Some(form) => match form.validate_with_id(
                self.profiles.as_slice(),
                self.keys.as_slice(),
                fresh,
            ) {
                Ok(profile) => profile,
                Err(_) => {
                    return no_effects();
                },
            },
            None => {
                return no_effects();
            },
        };
        let ghost p = profile@;
        let mut effects = no_effects();
        let id = profile.id.clone();
        let running = match self.snapshots.get(id.as_str()) {
            Some(snapshot) => snapshot.is_running(),
            None => false,
        };
        if let Some(pos) = profile_position(self.profiles.as_slice(), id.as_str()) {
            assert(self@.profiles[pos as int] == self.profiles@[pos as int]@);
            let follows = match &self.log_filter {
                Some(name) => same_text(name.as_str(), self.profiles[pos].name.as_str())
                    && !same_text(self.profiles[pos].name.as_str(), profile.name.as_str()),
                None => false,
            };
            assert(follows == self@.filter_follows(p));
            if follows {
                self.log_filter = Some(profile.name.clone());
                push_effect(&mut effects, Effect::ReadLogs);
            }
        }
        assert(views(self.profiles@) == profile_views(self.profiles@));
        save_record(&mut self.profiles, profile);
        assert(views(self.profiles@) == profile_views(self.profiles@));
        push_effect(&mut effects, Effect::Persist);
        if self.notice.is_none() {
            self.notice = Some(
                String::from_str(
                    if running {
                        "Saved — reconnect to apply."
                    } else {
                        "Saved."
                    },
                ),
            );
        }
        self.selection = Selection::Profile(id);
        self.profile_form = None;
        assert(effect_views(effects@) == old(self)@.saving_profile(fresh@).1);
        effects
    }

    fn create_key_for_profile_form(&mut self, generated: GeneratedKey, fresh: String) -> (r: Vec<
        Effect,
    >)
        ensures
            (final(self)@, effect_views(r@)) == old(self)@.creating_key(generated, fresh@),
    {
        let name = match &self.profile_form {
            Some(form) => match &form.new_key_name {
                Some(buffer) => match validate_key_name(
                    buffer.as_str(),
                    self.keys.as_slice(),
                    None,
                ) {
                    Ok(name) => name,
                    Err(_) => {
                        return no_effects();
                    },
                },
                None => {
                    return no_effects();
                },
            },
            None => {
                return no_effects();
            },
        };
        let secret = generated.secret.clone();
        let key = AuthKey {
            id: fresh.clone(),
            name,
            public_key: generated.public_key,
            secret: generated.secret,
        };
        let ghost keys = key_views(self.keys@);
        let ghost k = key@;
        self.keys.push(key);
        assert(key_views(self.keys@) == keys.push(k));
        if let Some(form) = &mut self.profile_form {
            form.auth_key_id = fresh.clone();
            form.new_key_name = None;
        }
        two_effects(Effect::Persist, Effect::SaveKeySecret { id: fresh, secret })
    }

    fn save_key_form(&mut self, parsed: Checked<String>, fresh: String) -> (r: Vec<Effect>)
        ensures
            (final(self)@, effect_views(r@)) == old(self)@.saving_key(
                checked_text(parsed),
                fresh@,
            ),
    {
        let key = match &self.key_form {
            Some(form) => match form.validate_with_id(self.keys.as_slice(), &parsed, fresh) {
                Ok(key) => key,
                Err(_) => {
                    return no_effects();
                },
            },
            None => {
                return no_effects();
            },
        };
        assert(views(self.keys@) == key_views(self.keys@));
        let mut effects = one_effect(Effect::Persist);
        let changed = match find_position(self.keys.as_slice(), key.id.as_str()) {
            Some(pos) => {
                assert(self@.keys[pos as int] == self.keys@[pos as int]@);
                !same_text(self.keys[pos].secret.as_str(), key.secret.as_str())
            },
            None => true,
        };
        if changed {
            push_effect(
                &mut effects,
                Effect::SaveKeySecret { id: key.id.clone(), secret: key.secret.clone() },
            );
        }
        save_record(&mut self.keys, key);
        assert(views(self.keys@) == key_views(self.keys@));
        if self.notice.is_none() {
            self.notice = Some(
                String::from_str("Saved — profiles using this key apply it on reconnect."),
            );
        }
        self.key_form = None;
        assert(effect_views(effects@) == old(self)@.saving_key(
            checked_text(parsed),
            fresh@,
        ).1);
        effects
    }

    /// Deletes a key that no profile refers to, at the second click.
    pub fn delete_key(&mut self, id: String) -> (r: Vec<Effect>)
        ensures
            (final(self)@, effect_views(r@)) == old(self)@.deleting_key(id@),
    {
        self.confirm_export_key = None;
        if let Some(user) = first_key_user(self.profiles.as_slice(), id.as_str()) {
            self.notice = Some(
                quote(
                    "This key is used by profile \"",
                    user.name.as_str(),
                    "\" — repoint or delete that profile first.",
                ),
            );
            self.confirm_delete_key = None;
            return no_effects();
        }
        let asked = match &self.confirm_delete_key {
            Some(asked) => same_text(asked.as_str(), id.as_str()),
            None => false,
        };
        if !asked {
            self.confirm_delete_key = Some(id);
            return no_effects();
        }
        self.confirm_delete_key = None;
        assert(views(self.keys@) == key_views(self.keys@));
        drop_records(&mut self.keys, id.as_str());
        assert(views(self.keys@) == key_views(self.keys@));
        self.key_form = None;
        two_effects(Effect::Persist, Effect::DeleteKeySecret(id))
    }

    fn export_key(&mut self, id: String) -> (r: Vec<Effect>)
        ensures
            (final(self)@, effect_views(r@)) == old(self)@.exporting_key(id@),
    {
        self.confirm_delete_key = None;
        let asked = match &self.confirm_export_key {
            Some(asked) => same_text(asked.as_str(), id.as_str()),
            None => false,
        };
        if !asked {
            self.confirm_export_key = Some(id);
            return no_effects();
        }
        self.confirm_export_key = None;
        let key = match find_key(self.keys.as_slice(), id.as_str()) {
            Some(key) => key.clone(),
            None => {
                return no_effects();
            },
        };
        if key.secret.as_str().is_empty() {
            return no_effects();
        }
        self.notice = Some(
            quote(
                "Secret key of \"",
                key.name.as_str(),
                "\" copied — paste it into the key form of another install.",
            ),
        );
        one_effect(Effect::CopyText(key.secret))
    }

    fn commit_forwards(&self, profile_id: &str) -> (r: Vec<Effect>)
        ensures
            effect_views(r@) == commit_forwards(self@.profiles, profile_id@),
    {
        match self.profile(profile_id) {
            Some(p) => two_effects(
                Effect::Persist,
                Effect::SetForwards {
                    profile_id: String::from_str(profile_id),
                    forwards: clone_forwards(&p.forwards),
                },
            ),
            None => one_effect(Effect::Persist),
        }
    }

    fn save_forward_form(&mut self, fresh: String) -> (r: Vec<Effect>)
        ensures
            (final(self)@, effect_views(r@)) == old(self)@.saving_forward(fresh@),
    {
        let (profile_id, forward) = match &self.forward_form {
            Some((profile_id, form)) => match form.validate_with_id(
                self.profiles.as_slice(),
                fresh,
            ) {
                Ok(forward) => (profile_id.clone(), forward),
                Err(_) => {
                    return no_effects();
                },
            },
            None => {
                return no_effects();
            },
        };
        let pos = match profile_position(self.profiles.as_slice(), profile_id.as_str()) {
            Some(pos) => pos,
            None => {
                return no_effects();
            },
        };
        if forward.enabled {
            self.forward_errors.remove(forward.id.as_str());
        }
        let ghost profiles = profile_views(self.profiles@);
        let mut p = self.profiles[pos].clone();
        assert(p@ == profiles[pos as int]);
        assert(views(p.forwards@) == forward_views(p.forwards@));
        save_record(&mut p.forwards, forward);
        assert(views(p.forwards@) == forward_views(p.forwards@));
        let ghost next = p@;
        self.profiles.set(pos, p);
        assert(profile_views(self.profiles@) == profiles.update(pos as int, next));
        self.forward_form = None;
        self.commit_forwards(profile_id.as_str())
    }

    fn delete_forward(&mut self, profile_id: &str, forward_id: &str) -> (r: Vec<Effect>)
        ensures
            (final(self)@, effect_views(r@)) == old(self)@.deleting_forward(
                profile_id@,
                forward_id@,
            ),
    {
        let pos = match profile_position(self.profiles.as_slice(), profile_id) {
            Some(pos) => pos,
            None => {
                return no_effects();
            },
        };
        let ghost profiles = profile_views(self.profiles@);
        let mut p = self.profiles[pos].clone();
        assert(p@ == profiles[pos as int]);
        let before: usize = p.forwards.len();
        assert(views(p.forwards@) == forward_views(p.forwards@));
        drop_records(&mut p.forwards, forward_id);
        assert(views(p.forwards@) == forward_views(p.forwards@));
        if p.forwards.len() == before {
            return no_effects();
        }
        let ghost next = p@;
        self.profiles.set(pos, p);
        assert(profile_views(self.profiles@) == profiles.update(pos as int, next));
        self.forward_errors.remove(forward_id);
        self.commit_forwards(profile_id)
    }

    fn toggle_forward(&mut self, profile_id: &str, forward_id: &str, enabled: bool) -> (r: Vec<
        Effect,
    >)
        ensures
            (final(self)@, effect_views(r@)) == old(self)@.toggling_forward(
                profile_id@,
                forward_id@,
                enabled,
            ),
    {
        let pos = match profile_position(self.profiles.as_slice(), profile_id) {
            Some(pos) => pos,
            None => {
                return no_effects();
            },
        };
        let ghost profiles = profile_views(self.profiles@);
        let mut p = self.profiles[pos].clone();
        assert(p@ == profiles[pos as int]);
        let ghost forwards = forward_views(p.forwards@);
        assert(views(p.forwards@) == forwards);
        let k = match find_position(p.forwards.as_slice(), forward_id) {
            Some(k) => k,
            None => {
                return no_effects();
            },
        };
        let mut f = p.forwards[k].clone();
        f.enabled = enabled;
        let ghost changed = f@;
        p.forwards.set(k, f);
        assert(forward_views(p.forwards@) == forwards.update(k as int, changed));
        let ghost next = p@;
        self.profiles.set(pos, p);
        assert(profile_views(self.profiles@) == profiles.update(pos as int, next));
        if enabled {
            self.forward_errors.remove(forward_id);
        }
        self.commit_forwards(profile_id)
    }

    fn edit_forward(&mut self, profile_id: String, forward_id: &str)
        ensures
            final(self)@ == old(self)@.editing_forward(profile_id@, forward_id@),
    {
        let form = match self.profile(profile_id.as_str()) {
            Some(p) => {
                assert(views(p.forwards@) == forward_views(p.forwards@));
                match find_position(p.forwards.as_slice(), forward_id) {
                    Some(k) => {
                        assert(p@.forwards[k as int] == p.forwards@[k as int]@);
                        ForwardForm::edit(&p.forwards[k])
                    },
                    None => {
                        return;
                    },
                }
            },
            None => {
                return;
            },
        };
        self.forward_form = Some((profile_id, form));
    }

    fn import_profiles(&mut self, imported: Vec<Profile>, fresh: &Vec<FreshIds>) -> (r: Vec<Effect>)
        requires
            fresh.len() >= imported.len(),
            forall|i: int|
                0 <= i < imported.len() ==> (#[trigger] fresh@[i]).forwards.len()
                    >= imported@[i].forwards.len(),
        ensures
            (final(self)@, effect_views(r@)) == old(self)@.importing(
                profile_views(imported@),
                fresh_views(fresh@),
            ),
    {
        let before = copy_profiles(&self.profiles);
        let (added, replaced) = merge_imported_with_ids(&mut self.profiles, imported, fresh);
        drop_errors_of(&mut self.forward_errors, &before, &replaced);
        let mut effects = no_effects();
        push_set_forwards(&mut effects, &self.profiles, &replaced);
        push_effect(&mut effects, Effect::Persist);
        let mut notice = String::from_str("Imported: ");
        push_decimal(&mut notice, added as u128);
        notice.append(" added, ");
        push_decimal(&mut notice, replaced.len() as u128);
        notice.append(" replaced.");
        assert(strings(replaced@).len() == replaced@.len());
        self.io_notice = Some(notice);
        let selected = match &self.selection {
            Selection::Profile(id) => self.profile(id.as_str()).is_some(),
            _ => false,
        };
        if !selected && self.profiles.len() > 0 {
            self.selection = Selection::Profile(self.profiles[0].id.clone());
        }
        self.profile_form = None;
        assert(effect_views(effects@) == old(self)@.importing(
            profile_views(imported@),
            fresh_views(fresh@),
        ).1);
        effects
    }

    fn rebuild_log_text(&mut self, lines: &Vec<String>)
        ensures
            final(self)@ == (AppView {
                log_text: log_text(strings(lines@), old(self)@.log_filter),
                ..old(self)@
            }),
    {
        let text = match &self.log_filter {
            Some(name) => {
                let mut tag = String::from_str("[tunnel-");
                tag.append(name.as_str());
                tag.append("]");
                join_strings(&keep_lines(lines, tag.as_str()), "\n")
            },
            None => join_strings(lines, "\n"),
        };
        self.log_text = text;
    }

    fn edit_profile_form(&mut self, message: Message)
        requires
            edits_profile_form(message),
        ensures
            final(self)@ == edited(old(self)@, message),
    {
        if let Some(form) = &mut self.profile_form {
            match message {
                Message::ProfileNameChanged(value) => {
                    form.name = value;
                },
                Message::ServerNodeIdChanged(value) => {
                    form.server_node_id = value;
                },
                Message::AuthKeyPicked(choice) => {
                    form.auth_key_id = choice.id;
                },
                Message::NewKeyPrompt => {
                    if form.new_key_name.is_none() {
                        form.new_key_name = Some(String::new());
                    }
                },
                Message::NewKeyNameChanged(value) => {
                    if form.new_key_name.is_some() {
                        form.new_key_name = Some(value);
                    }
                },
                Message::NewKeyCancel => {
                    form.new_key_name = None;
                },
                Message::SocksEnabledToggled(enabled) => {
                    form.socks_enabled = enabled;
                },
                Message::SocksPortChanged(value) => {
                    form.socks_port = value;
                },
                Message::HttpEnabledToggled(enabled) => {
                    form.http_enabled = enabled;
                },
                Message::HttpPortChanged(value) => {
                    form.http_port = value;
                },
                Message::RelayUrlsChanged(value) => {
                    form.relay_urls = value;
                },
                Message::RelayAuthTokenChanged(value) => {
                    form.relay_auth_token = value;
                },
                _ => {},
            }
        }
    }

    fn edit_key_form(&mut self, message: Message)
        requires
            edits_key_form(message),
        ensures
            final(self)@ == edited(old(self)@, message),
    {
        if let Some(form) = &mut self.key_form {
            match message {
                Message::KeyNameChanged(value) => {
                    form.name = value;
                },
                Message::KeySecretChanged(value) => {
                    form.secret = value;
                },
                Message::KeyGenerateSecret(generated) => {
                    form.secret = generated.secret;
                },
                _ => {},
            }
        }
    }

    fn edit_forward_form(&mut self, message: Message)
        requires
            edits_forward_form(message),
        ensures
            final(self)@ == edited(old(self)@, message),
    {
        if let Some((_, form)) = &mut self.forward_form {
            match message {
                Message::FormLabelChanged(value) => {
                    form.label = value;
                },
                Message::FormLocalPortChanged(value) => {
                    form.local_port = value;
                },
                Message::FormRemoteHostChanged(value) => {
                    form.remote_host = value;
                },
                Message::FormRemotePortChanged(value) => {
                    form.remote_port = value;
                },
                Message::FormEnabledToggled(enabled) => {
                    form.enabled = enabled;
                },
                _ => {},
            }
        }
    }

    /// Takes a message, with the given new ids for what it creates, and says what is to be done.
    pub fn update_with(&mut self, message: Message, fresh: NewIds) -> (r: Vec<Effect>)
        requires
            enough_ids(message, fresh),
        ensures
            (final(self)@, effect_views(r@)) == step(old(self)@, message, fresh@),
    {
        match message {
            Message::Tick(observed) => {
                let mut effects = no_effects();
                self.refresh(observed, &mut effects);
                assert(effect_views(effects@) == step(old(self)@, message, fresh@).1);
                effects
            },
            Message::SetupTray(observed) => {
                let mut effects = two_effects(
                    Effect::SetActivationPolicy(self.window.is_some()),
                    Effect::CreateTray,
                );
                self.refresh(observed, &mut effects);
                effects
            },
            Message::TrayMenu(id) => self.handle_menu_event(id.as_str()),
            Message::TrayIcon(click) => {
                if click != TrayClick::Toggle {
                    return no_effects();
                }
                match self.window {
                    Some(id) => {
                        self.window = None;
                        one_effect(Effect::CloseWindow(id))
                    },
                    None => two_effects(Effect::OpenWindow, Effect::SetActivationPolicy(true)),
                }
            },
            Message::WindowOpened => no_effects(),
            Message::WindowCreated(id) => {
                self.window = Some(id);
                no_effects()
            },
            Message::WindowClosed(id) => {
                if self.window == Some(id) {
                    self.window = None;
                    one_effect(Effect::SetActivationPolicy(false))
                } else {
                    no_effects()
                }
            },
            Message::Select(selection) => {
                self.selection = selection;
                self.profile_form = None;
                self.key_form = None;
                self.forward_form = None;
                self.confirm_delete = None;
                self.confirm_delete_key = None;
                self.confirm_export_key = None;
                self.notice = None;
                self.conn_path_modal = None;
                no_effects()
            },
            Message::CopyText(text) => one_effect(Effect::CopyText(text)),
            Message::ShowConnPath => match &self.selection {
                Selection::Profile(id) => one_effect(Effect::QueryConnPath(id.clone())),
                _ => no_effects(),
            },
            Message::ConnPath(path) => {
                self.conn_path_modal = Some(path);
                no_effects()
            },
            Message::DismissConnPath => {
                self.conn_path_modal = None;
                no_effects()
            },
            Message::AddProfile => {
                self.profile_form = Some(ProfileForm::add(self.profiles.as_slice()));
                self.key_form = None;
                self.forward_form = None;
                self.confirm_delete = None;
                self.notice = None;
                no_effects()
            },
            Message::EditProfile(id) => {
                if let Some(profile) = find_profile(self.profiles.as_slice(), id.as_str()) {
                    self.profile_form = Some(ProfileForm::edit(profile));
                    self.key_form = None;
                    self.forward_form = None;
                    self.notice = None;
                }
                no_effects()
            },
            Message::DeleteProfile(id) => self.delete_profile(id),
            Message::Connect(id) => self.connect_profile(id.as_str()),
            Message::Disconnect(id) => one_effect(Effect::Disconnect(id)),
            Message::ExportProfiles => one_effect(Effect::PickExportFile),
            Message::ImportProfiles => one_effect(Effect::PickImportFile),
            Message::ExportPicked(path) => match path {
                Some(path) => one_effect(Effect::ExportProfiles(path)),
                None => no_effects(),
            },
            Message::ImportPicked(path) => match path {
                Some(path) => one_effect(Effect::ImportProfiles(path)),
                None => no_effects(),
            },
            Message::ExportDone(outcome) => {
                let notice = match outcome {
                    Ok(_) => {
                        let mut notice = String::from_str("Exported ");
                        push_decimal(&mut notice, self.profiles.len() as u128);
                        notice.append(" profile(s).");
                        notice
                    },
                    Err(e) => prefixed("Export failed: ", e.as_str()),
                };
                self.io_notice = Some(notice);
                no_effects()
            },
            Message::ImportRead(outcome) => match outcome {
                Ok(imported) => self.import_profiles(imported, &fresh.imports),
                Err(e) => {
                    self.io_notice = Some(prefixed("Import failed: ", e.as_str()));
                    no_effects()
                },
            },
            Message::NewKeyCreate(generated) => self.create_key_for_profile_form(
                generated,
                fresh.id,
            ),
            Message::AddKey => {
                self.key_form = Some(KeyForm::default());
                self.confirm_delete_key = None;
                self.confirm_export_key = None;
                self.notice = None;
                no_effects()
            },
            Message::EditKey(id) => {
                if let Some(key) = find_key(self.keys.as_slice(), id.as_str()) {
                    self.key_form = Some(KeyForm::edit(key));
                    self.confirm_delete_key = None;
                    self.confirm_export_key = None;
                    self.notice = None;
                }
                no_effects()
            },
            Message::DeleteKey(id) => self.delete_key(id),
            Message::ExportKey(id) => self.export_key(id),
            Message::KeyFormSave(parsed) => self.save_key_form(parsed, fresh.id),
            Message::KeyFormCancel => {
                self.key_form = None;
                no_effects()
            },
            Message::ProfileFormSave => self.save_profile_form(fresh.id),
            Message::ProfileFormCancel => {
                self.profile_form = None;
                no_effects()
            },
            Message::AddForward(profile_id) => {
                self.forward_form = Some((profile_id, ForwardForm::add()));
                no_effects()
            },
            Message::EditForward(profile_id, forward_id) => {
                self.edit_forward(profile_id, forward_id.as_str());
                no_effects()
            },
            Message::DeleteForward(profile_id, forward_id) => self.delete_forward(
                profile_id.as_str(),
                forward_id.as_str(),
            ),
            Message::ToggleForward(profile_id, forward_id, enabled) => self.toggle_forward(
                profile_id.as_str(),
                forward_id.as_str(),
                enabled,
            ),
            Message::FormSave => self.save_forward_form(fresh.id),
            Message::FormCancel => {
                self.forward_form = None;
                no_effects()
            },
            Message::LogFilterChanged(value) => {
                self.log_filter = if same_text(value.as_str(), LOG_FILTER_ALL) {
                    None
                } else {
                    Some(value)
                };
                one_effect(Effect::ReadLogs)
            },
            Message::OpenLogFolder => one_effect(Effect::OpenLogFolder),
            Message::CopyLogs => one_effect(Effect::CopyText(self.log_text.clone())),
            Message::LogLines(lines) => {
                self.rebuild_log_text(&lines);
                no_effects()
            },
            Message::SaveFailed(e) => {
                self.notice = Some(prefixed("Failed to save profiles: ", e.as_str()));
                no_effects()
            },
            Message::KeyNameChanged(_)
            | Message::KeySecretChanged(_)
            | Message::KeyGenerateSecret(_) => {
                self.edit_key_form(message);
                no_effects()
            },
            Message::FormLabelChanged(_)
            | Message::FormLocalPortChanged(_)
            | Message::FormRemoteHostChanged(_)
            | Message::FormRemotePortChanged(_)
            | Message::FormEnabledToggled(_) => {
                self.edit_forward_form(message);
                no_effects()
            },
            Message::ProfileNameChanged(_)
            | Message::ServerNodeIdChanged(_)
            | Message::AuthKeyPicked(_)
            | Message::NewKeyPrompt
            | Message::NewKeyNameChanged(_)
            | Message::NewKeyCancel
            | Message::SocksEnabledToggled(_)
            | Message::SocksPortChanged(_)
            | Message::HttpEnabledToggled(_)
            | Message::HttpPortChanged(_)
            | Message::RelayUrlsChanged(_)
            | Message::RelayAuthTokenChanged(_) => {
                self.edit_profile_form(message);
                no_effects()
            },
        }
    }

    /// Takes a message, with random new ids for what it creates, and says what is to be done.
    pub fn update(&mut self, message: Message) -> (r: Vec<Effect>)
        ensures
            exists|fresh: NewIdsView| #[trigger]
                new_ids_fit(fresh, message) && (final(self)@, effect_views(r@)) == step(
                    old(self)@,
                    message,
                    fresh,
                ),
    {
        let imports = match &message {
            Message::ImportRead(Ok(imported)) => {
                let drawn = draw_fresh_ids(imported);
                assert forall|i: int| 0 <= i < imported@.len() implies (
                #[trigger] drawn@[i]).forwards@.len() >= imported@[i].forwards@.len() by {
                    assert(fresh_views(drawn@)[i].forwards.len() == profile_views(
                        imported@,
                    )[i].forwards.len());
                }
                drawn
            },
            _ => Vec::new(),
        };
        let fresh = NewIds { id: random_id(), imports };
        let ghost ids = fresh@;
        assert(new_ids_fit(ids, message));
        self.update_with(message, fresh)
    }
}

} // verus!
