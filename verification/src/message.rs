//! What the desktop app is told, and what it wants done.

use vstd::prelude::*;
use vstd::string::*;

use crate::config::{Profile, ProfileView};
use crate::forwards::{forward_views, Checked, PortForward, PortForwardView};
use crate::session::Snapshot;
use crate::table::Table;

verus! {

/// What the detail pane shows.
#[derive(Debug, PartialEq, Eq)]
pub enum Selection {
    Profile(String),
    Keys,
    Logs,
}

/// What a [`Selection`] holds.
#[verifier::ext_equal]
pub enum SelectionView {
    Profile(Seq<char>),
    Keys,
    Logs,
}

impl View for Selection {
    type V = SelectionView;

    open spec fn view(&self) -> SelectionView {
        match *self {
            Selection::Profile(id) => SelectionView::Profile(id@),
            Selection::Keys => SelectionView::Keys,
            Selection::Logs => SelectionView::Logs,
        }
    }
}

/// One entry of the profile form's key picker.
#[derive(Debug, PartialEq, Eq)]
pub struct KeyChoice {
    pub id: String,
    pub name: String,
}

impl KeyChoice {
    /// How the entry is shown: by the key's name.
    pub fn label(&self) -> (r: &str)
        ensures
            r@ == self.name@,
    {
        self.name.as_str()
    }
}

/// A new client keypair.
#[derive(Debug, PartialEq, Eq)]
pub struct GeneratedKey {
    pub public_key: String,
    pub secret: String,
}

/// A click on the tray icon.
#[derive(Debug, Clone, Copy, PartialEq, Eq, Structural)]
pub enum TrayClick {
    /// The left button was released over the icon, where that toggles the window.
    Toggle,
    Other,
}

/// What is polled on every tick.
#[derive(Debug)]
pub struct Observed {
    /// What is known of each profile's session.
    pub snapshots: Table<Snapshot>,
    /// A number that changes with every new log line.
    pub log_revision: u64,
}

/// What the app is told.
#[derive(Debug)]
pub enum Message {
    Tick(Observed),
    SetupTray(Observed),
    TrayMenu(String),
    TrayIcon(TrayClick),
    WindowOpened,
    /// The window that was asked for exists and has this number.
    WindowCreated(u64),
    WindowClosed(u64),
    Select(Selection),
    CopyText(String),
    ShowConnPath,
    /// How the selected profile's session is connected at the moment.
    ConnPath(String),
    DismissConnPath,
    AddProfile,
    EditProfile(String),
    DeleteProfile(String),
    Connect(String),
    Disconnect(String),
    ExportProfiles,
    ImportProfiles,
    ExportPicked(Option<String>),
    ImportPicked(Option<String>),
    /// The export was written, or why not.
    ExportDone(Result<(), String>),
    /// The profiles that a file gave, or why it could not be read.
    ImportRead(Result<Vec<Profile>, String>),
    ProfileNameChanged(String),
    ServerNodeIdChanged(String),
    AuthKeyPicked(KeyChoice),
    NewKeyPrompt,
    NewKeyNameChanged(String),
    /// Create a key under the prompted name, with this new keypair.
    NewKeyCreate(GeneratedKey),
    NewKeyCancel,
    AddKey,
    EditKey(String),
    DeleteKey(String),
    ExportKey(String),
    KeyNameChanged(String),
    KeySecretChanged(String),
    /// Fill in the secret of a new keypair.
    KeyGenerateSecret(GeneratedKey),
    /// Save the key form, given what reading its secret gave.
    KeyFormSave(Checked<String>),
    KeyFormCancel,
    SocksEnabledToggled(bool),
    SocksPortChanged(String),
    HttpEnabledToggled(bool),
    HttpPortChanged(String),
    RelayUrlsChanged(String),
    RelayAuthTokenChanged(String),
    ProfileFormSave,
    ProfileFormCancel,
    AddForward(String),
    EditForward(String, String),
    DeleteForward(String, String),
    ToggleForward(String, String, bool),
    FormLabelChanged(String),
    FormLocalPortChanged(String),
    FormRemoteHostChanged(String),
    FormRemotePortChanged(String),
    FormEnabledToggled(bool),
    FormSave,
    FormCancel,
    LogFilterChanged(String),
    OpenLogFolder,
    CopyLogs,
    /// The log lines that were asked for.
    LogLines(Vec<String>),
    /// Keys and profiles could not be saved.
    SaveFailed(String),
}

/// What the app wants done, in this order.
#[derive(Debug)]
pub enum Effect {
    /// Store keys and profiles; report a failure.
    Persist,
    /// Store one key's secret; report a failure.
    SaveKeySecret { id: String, secret: String },
    /// Remove a deleted key's secret, once the keys that are left have been stored.
    DeleteKeySecret(String),
    /// Start a session for a profile.
    Connect { profile: Profile, secret: String },
    Disconnect(String),
    /// End and forget a profile's session.
    RemoveProfile(String),
    /// Make these a session's forwards.
    SetForwards { profile_id: String, forwards: Vec<PortForward> },
    /// End all sessions.
    Shutdown,
    Exit,
    CopyText(String),
    /// Find out how a session is connected, and report it.
    QueryConnPath(String),
    /// Open the window, and report its number.
    OpenWindow,
    CloseWindow(u64),
    FocusWindow(u64),
    /// Show the app in the dock, or only in the tray.
    SetActivationPolicy(bool),
    /// Ask for the tray once the event loop runs.
    SetupTray,
    CreateTray,
    /// Bring the tray up to date, if there is one.
    SyncTray,
    /// Let the user pick a file to export to, and report it.
    PickExportFile,
    /// Let the user pick a file to import, and report it.
    PickImportFile,
    /// Write the export, and report the outcome.
    ExportProfiles(String),
    /// Read an import, and report the outcome.
    ImportProfiles(String),
    OpenLogFolder,
    /// Report the recent log lines.
    ReadLogs,
}

/// What an [`Effect`] holds.
#[verifier::ext_equal]
pub enum EffectView {
    Persist,
    SaveKeySecret { id: Seq<char>, secret: Seq<char> },
    DeleteKeySecret(Seq<char>),
    Connect { profile: ProfileView, secret: Seq<char> },
    Disconnect(Seq<char>),
    RemoveProfile(Seq<char>),
    SetForwards { profile_id: Seq<char>, forwards: Seq<PortForwardView> },
    Shutdown,
    Exit,
    CopyText(Seq<char>),
    QueryConnPath(Seq<char>),
    OpenWindow,
    CloseWindow(u64),
    FocusWindow(u64),
    SetActivationPolicy(bool),
    SetupTray,
    CreateTray,
    SyncTray,
    PickExportFile,
    PickImportFile,
    ExportProfiles(Seq<char>),
    ImportProfiles(Seq<char>),
    OpenLogFolder,
    ReadLogs,
}

impl View for Effect {
    type V = EffectView;

    open spec fn view(&self) -> EffectView {
        match *self {
            Effect::Persist => EffectView::Persist,
            Effect::SaveKeySecret { id, secret } => EffectView::SaveKeySecret {
                id: id@,
                secret: secret@,
            },
            Effect::DeleteKeySecret(id) => EffectView::DeleteKeySecret(id@),
            Effect::Connect { profile, secret } => EffectView::Connect {
                profile: profile@,
                secret: secret@,
            },
            Effect::Disconnect(id) => EffectView::Disconnect(id@),
            Effect::RemoveProfile(id) => EffectView::RemoveProfile(id@),
            Effect::SetForwards { profile_id, forwards } => EffectView::SetForwards {
                profile_id: profile_id@,
                forwards: forward_views(forwards@),
            },
            Effect::Shutdown => EffectView::Shutdown,
            Effect::Exit => EffectView::Exit,
            Effect::CopyText(text) => EffectView::CopyText(text@),
            Effect::QueryConnPath(id) => EffectView::QueryConnPath(id@),
            Effect::OpenWindow => EffectView::OpenWindow,
            Effect::CloseWindow(id) => EffectView::CloseWindow(id),
            Effect::FocusWindow(id) => EffectView::FocusWindow(id),
            Effect::SetActivationPolicy(regular) => EffectView::SetActivationPolicy(regular),
            Effect::SetupTray => EffectView::SetupTray,
            Effect::CreateTray => EffectView::CreateTray,
            Effect::SyncTray => EffectView::SyncTray,
            Effect::PickExportFile => EffectView::PickExportFile,
            Effect::PickImportFile => EffectView::PickImportFile,
            Effect::ExportProfiles(path) => EffectView::ExportProfiles(path@),
            Effect::ImportProfiles(path) => EffectView::ImportProfiles(path@),
            Effect::OpenLogFolder => EffectView::OpenLogFolder,
            Effect::ReadLogs => EffectView::ReadLogs,
        }
    }
}

/// The views of effects.
pub open spec fn effect_views(s: Seq<Effect>) -> Seq<EffectView> {
    s.map_values(|e: Effect| e@)
}

/// No effect.
pub fn no_effects() -> (r: Vec<Effect>)
    ensures
        effect_views(r@) == Seq::<EffectView>::empty(),
{
    let r: Vec<Effect> = Vec::new();
    assert(effect_views(r@) == Seq::<EffectView>::empty());
    r
}

/// Adds an effect behind the others.
pub fn push_effect(effects: &mut Vec<Effect>, e: Effect)
    ensures
        effect_views(final(effects)@) == effect_views(old(effects)@).push(e@),
{
    let ghost before = effect_views(effects@);
    effects.push(e);
    assert(effect_views(effects@) == before.push(e@));
}

/// One effect.
pub fn one_effect(e: Effect) -> (r: Vec<Effect>)
    ensures
        effect_views(r@) == seq![e@],
{
    let mut r = no_effects();
    push_effect(&mut r, e);
    assert(effect_views(r@) == seq![e@]);
    r
}

/// Two effects.
pub fn two_effects(a: Effect, b: Effect) -> (r: Vec<Effect>)
    ensures
        effect_views(r@) == seq![a@, b@],
{
    let mut r = no_effects();
    push_effect(&mut r, a);
    push_effect(&mut r, b);
    assert(effect_views(r@) == seq![a@, b@]);
    r
}

} // verus!
