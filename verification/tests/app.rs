use flextunnel::app::{App, NewIds};
use flextunnel::config::{AuthKey, Profile};
use flextunnel::forward::{ForwardState, ForwardStatus};
use flextunnel::forwards::PortForward;
use flextunnel::merge::FreshIds;
use flextunnel::message::{
    Effect, GeneratedKey, KeyChoice, Message, Observed, Selection, TrayClick,
};
use flextunnel::session::{Phase, Routes, Snapshot};
use flextunnel::store::Store;
use flextunnel::table::Table;

fn key(id: &str, secret: &str) -> AuthKey {
    AuthKey {
        id: id.into(),
        name: format!("key {id}"),
        public_key: format!("pub-{id}"),
        secret: secret.into(),
    }
}

fn forward(id: &str, port: u16) -> PortForward {
    PortForward {
        id: id.into(),
        label: String::new(),
        local_port: port,
        remote_host: "h".into(),
        remote_port: 80,
        enabled: true,
    }
}

fn profile(id: &str, port: u16, forwards: Vec<PortForward>) -> Profile {
    Profile {
        id: id.into(),
        name: format!("profile-{id}"),
        server_node_id: format!("node-{id}"),
        auth_key_id: "k1".into(),
        socks_port: Some(port),
        http_port: None,
        relay_urls: vec![],
        relay_auth_token: None,
        forwards,
    }
}

fn app() -> App {
    let store = Store {
        keys: vec![key("k1", "secret-1"), key("k2", "")],
        profiles: vec![
            profile("p1", 1080, vec![forward("f1", 5000), forward("f2", 5001)]),
            profile("p2", 1081, vec![]),
        ],
    };
    App::boot(Ok(store)).0
}

fn snapshot(phase: Phase) -> Snapshot {
    Snapshot {
        phase,
        socks_addr: Some("127.0.0.1:1080".into()),
        forwards: vec![],
        routes: Routes { domains: vec!["*.x".into()], cidrs: vec![] },
    }
}

fn observed(entries: Vec<(&str, Snapshot)>, log_revision: u64) -> Observed {
    let mut snapshots = Table::new();
    for (id, s) in entries {
        snapshots.insert(id.into(), s);
    }
    Observed { snapshots, log_revision }
}

fn send(app: &mut App, message: Message) -> Vec<String> {
    let ids = NewIds { id: "fresh".into(), imports: vec![] };
    app.update_with(message, ids).iter().map(|e| format!("{e:?}")).collect()
}

fn nothing() -> Vec<String> {
    Vec::new()
}

#[test]
fn the_app_starts_with_what_was_stored() {
    let (app, effects) = App::boot(Err("locked".into()));
    assert!(app.profiles.is_empty() && app.keys.is_empty());
    assert_eq!(app.selection, Selection::Logs);
    assert_eq!(app.profile_form.as_ref().unwrap().socks_port, "1080");
    let names: Vec<String> = effects.iter().map(|e| format!("{e:?}")).collect();
    assert_eq!(names, vec!["OpenWindow", "SetActivationPolicy(true)", "SetupTray"]);
    assert_eq!(app.title(), "flextunnel");

    let app = self::app();
    assert_eq!(app.selection, Selection::Profile("p1".into()));
    assert!(app.profile_form.is_none());
    assert_eq!(app.profile("p2").unwrap().name, "profile-p2");
    assert!(app.profile("p3").is_none());
    assert_eq!(app.snapshot_for("p1").phase, Phase::Idle);
}

#[test]
fn the_window_comes_and_goes() {
    let mut app = app();
    assert_eq!(
        send(&mut app, Message::TrayMenu("open".into())),
        vec!["OpenWindow", "SetActivationPolicy(true)"]
    );
    assert_eq!(send(&mut app, Message::WindowCreated(7)), nothing());
    assert_eq!(send(&mut app, Message::WindowOpened), nothing());
    assert_eq!(send(&mut app, Message::TrayMenu("open".into())), vec!["FocusWindow(7)"]);
    assert_eq!(send(&mut app, Message::WindowClosed(8)), nothing());
    assert_eq!(send(&mut app, Message::WindowClosed(7)), vec!["SetActivationPolicy(false)"]);
    assert_eq!(app.window, None);
    assert_eq!(send(&mut app, Message::TrayIcon(TrayClick::Other)), nothing());
    assert_eq!(
        send(&mut app, Message::TrayIcon(TrayClick::Toggle)),
        vec!["OpenWindow", "SetActivationPolicy(true)"]
    );
    send(&mut app, Message::WindowCreated(9));
    assert_eq!(send(&mut app, Message::TrayIcon(TrayClick::Toggle)), vec!["CloseWindow(9)"]);
    assert_eq!(app.window, None);
    assert_eq!(send(&mut app, Message::TrayMenu("quit".into())), vec!["Shutdown", "Exit"]);
}

#[test]
fn selecting_closes_everything() {
    let mut app = app();
    send(&mut app, Message::AddProfile);
    send(&mut app, Message::AddKey);
    send(&mut app, Message::AddForward("p1".into()));
    send(&mut app, Message::DeleteProfile("p1".into()));
    send(&mut app, Message::DeleteKey("k2".into()));
    send(&mut app, Message::ConnPath("direct".into()));
    send(&mut app, Message::SaveFailed("disk full".into()));
    assert_eq!(app.notice.as_deref(), Some("Failed to save profiles: disk full"));
    assert_eq!(app.conn_path_modal.as_deref(), Some("direct"));
    assert_eq!(send(&mut app, Message::Select(Selection::Keys)), nothing());
    assert_eq!(app.selection, Selection::Keys);
    assert!(app.profile_form.is_none() && app.key_form.is_none() && app.forward_form.is_none());
    assert_eq!(app.confirm_delete, None);
    assert_eq!(app.confirm_delete_key, None);
    assert_eq!(app.confirm_export_key, None);
    assert_eq!(app.notice, None);
    assert_eq!(app.conn_path_modal, None);
}

#[test]
fn the_connection_path_is_shown_for_a_profile() {
    let mut app = app();
    assert_eq!(send(&mut app, Message::ShowConnPath), vec!["QueryConnPath(\"p1\")"]);
    send(&mut app, Message::ConnPath("relay".into()));
    send(&mut app, Message::DismissConnPath);
    assert_eq!(app.conn_path_modal, None);
    send(&mut app, Message::Select(Selection::Logs));
    assert_eq!(send(&mut app, Message::ShowConnPath), nothing());
}

#[test]
fn connecting_asks_for_what_is_missing() {
    let mut app = app();
    match app.update(Message::Connect("p1".into())).as_slice() {
        [Effect::Connect { profile, secret }] => {
            assert_eq!(profile.id, "p1");
            assert_eq!(secret, "secret-1");
        }
        other => panic!("{other:?}"),
    }
    assert_eq!(send(&mut app, Message::Connect("nobody".into())), nothing());
    assert_eq!(send(&mut app, Message::Disconnect("p1".into())), vec!["Disconnect(\"p1\")"]);

    app.profiles[1].auth_key_id = "k2".into();
    assert_eq!(
        send(&mut app, Message::TrayMenu("connect:p2".into())),
        vec!["OpenWindow", "SetActivationPolicy(true)"]
    );
    assert_eq!(app.selection, Selection::Keys);
    assert_eq!(
        app.notice.as_deref(),
        Some("Re-enter the secret of key \"key k2\" to connect.")
    );
    assert_eq!(app.key_form.as_ref().unwrap().editing_id(), Some("k2"));

    app.profiles[1].auth_key_id = String::new();
    send(&mut app, Message::Connect("p2".into()));
    assert_eq!(app.selection, Selection::Profile("p2".into()));
    assert_eq!(app.notice.as_deref(), Some("Pick an auth key to connect."));
    assert!(app.profile_form.as_ref().unwrap().is_edit());

    app.profiles[1].auth_key_id = "k1".into();
    app.profiles[1].server_node_id = String::new();
    send(&mut app, Message::Connect("p2".into()));
    assert_eq!(app.notice.as_deref(), Some("Enter the server node id to connect."));
}

#[test]
fn the_tray_menu_disconnects_and_copies() {
    let mut app = app();
    send(&mut app, Message::Tick(observed(vec![("p1", snapshot(Phase::Connected))], 1)));
    assert_eq!(
        send(&mut app, Message::TrayMenu("disconnect:p1".into())),
        vec!["Disconnect(\"p1\")"]
    );
    assert_eq!(
        send(&mut app, Message::TrayMenu("copy-socks:p1".into())),
        vec!["CopyText(\"socks5://127.0.0.1:1080\")"]
    );
    assert_eq!(send(&mut app, Message::TrayMenu("copy-socks:p2".into())), nothing());
    assert_eq!(send(&mut app, Message::TrayMenu("other".into())), nothing());
    assert_eq!(send(&mut app, Message::CopyText("t".into())), vec!["CopyText(\"t\")"]);
}

#[test]
fn a_profile_is_deleted_at_the_second_click() {
    let mut app = app();
    app.log_filter = Some("profile-p1".into());
    send(&mut app, Message::Tick(observed(vec![("p1", snapshot(Phase::Connected))], 1)));
    app.forward_errors.insert("f1".into(), "e".into());
    app.forward_errors.insert("other".into(), "e".into());
    assert_eq!(send(&mut app, Message::DeleteProfile("p1".into())), nothing());
    assert_eq!(app.profiles.len(), 2);
    // Another profile's button asks anew.
    assert_eq!(send(&mut app, Message::DeleteProfile("p2".into())), nothing());
    assert_eq!(send(&mut app, Message::DeleteProfile("p1".into())), nothing());
    assert_eq!(
        send(&mut app, Message::DeleteProfile("p1".into())),
        vec!["RemoveProfile(\"p1\")", "ReadLogs", "Persist"]
    );
    assert_eq!(app.profiles.len(), 1);
    assert_eq!(app.keys.len(), 2);
    assert_eq!(app.confirm_delete, None);
    assert_eq!(app.log_filter, None);
    assert_eq!(app.selection, Selection::Profile("p2".into()));
    assert!(app.snapshots.get("p1").is_none());
    assert!(app.routed_caches.get("p1").is_none());
    assert!(app.forward_errors.get("f1").is_none());
    assert!(app.forward_errors.get("other").is_some());

    send(&mut app, Message::DeleteProfile("p2".into()));
    assert_eq!(
        send(&mut app, Message::DeleteProfile("p2".into())),
        vec!["RemoveProfile(\"p2\")", "Persist"]
    );
    assert_eq!(app.selection, Selection::Logs);
    assert!(app.profile_form.is_some());
    // One that is gone is only forgotten.
    send(&mut app, Message::DeleteProfile("p2".into()));
    assert_eq!(send(&mut app, Message::DeleteProfile("p2".into())), nothing());
    assert_eq!(app.confirm_delete, None);
}

#[test]
fn deleting_the_last_row_selects_its_neighbour() {
    let mut app = app();
    send(&mut app, Message::Select(Selection::Profile("p2".into())));
    send(&mut app, Message::DeleteProfile("p2".into()));
    send(&mut app, Message::DeleteProfile("p2".into()));
    assert_eq!(app.selection, Selection::Profile("p1".into()));
}

#[test]
fn failed_forwards_snap_back() {
    let mut app = app();
    let mut bad = snapshot(Phase::Connected);
    bad.forwards = vec![ForwardStatus {
        id: "f2".into(),
        state: ForwardState::Failed("port 5001 is in use".into()),
        active: 0,
        last_conn_error: None,
    }];
    let effects = app.update(Message::Tick(observed(vec![("p1", bad)], 3)));
    match effects.as_slice() {
        [Effect::SetForwards { profile_id, forwards }, Effect::Persist, Effect::ReadLogs, Effect::SyncTray] =>
        {
            assert_eq!(profile_id, "p1");
            assert!(forwards[0].enabled && !forwards[1].enabled);
        }
        other => panic!("{other:?}"),
    }
    assert!(!app.profiles[0].forwards[1].enabled);
    assert_eq!(app.forward_errors.get("f2").unwrap(), "port 5001 is in use");
    assert_eq!(app.routed_caches.get("p1").unwrap().domains, vec!["*.x"]);
    assert!(app.routed_caches.get("p2").is_none());
    // Nothing new: only the tray is brought up to date.
    assert_eq!(send(&mut app, Message::Tick(observed(vec![], 3))), vec!["SyncTray"]);
    // A new attempt forgets the failure.
    let effects = send(&mut app, Message::ToggleForward("p1".into(), "f2".into(), true));
    assert_eq!(effects.len(), 2);
    assert_eq!(effects[0], "Persist");
    assert!(app.profiles[0].forwards[1].enabled);
    assert!(app.forward_errors.get("f2").is_none());
}

#[test]
fn a_failure_goes_with_its_forward() {
    let failed = || {
        let mut app = app();
        let mut bad = snapshot(Phase::Connected);
        bad.forwards = vec![ForwardStatus {
            id: "f2".into(),
            state: ForwardState::Failed("port 5001 is in use".into()),
            active: 0,
            last_conn_error: None,
        }];
        app.update(Message::Tick(observed(vec![("p1", bad)], 0)));
        assert!(app.forward_errors.get("f2").is_some());
        app
    };
    // An import that replaces the profile removes its forwards.
    let mut importing = failed();
    let mut replacing = profile("x", 2000, vec![forward("x1", 7000)]);
    replacing.server_node_id = "node-p1".into();
    importing.update(Message::ImportRead(Ok(vec![replacing])));
    assert_eq!(importing.profiles[0].id, "p1");
    assert!(importing.forward_errors.get("f2").is_none());
    // One that replaces another profile, or adds one, does not.
    let mut importing = failed();
    let mut replacing = profile("x", 2000, vec![]);
    replacing.server_node_id = "node-p2".into();
    importing.update(Message::ImportRead(Ok(vec![replacing, profile("y", 3000, vec![])])));
    assert!(importing.forward_errors.get("f2").is_some());
    let mut deleting = failed();
    send(&mut deleting, Message::DeleteForward("p1".into(), "f2".into()));
    assert!(deleting.forward_errors.get("f2").is_none());
    let mut deleting = failed();
    send(&mut deleting, Message::DeleteProfile("p1".into()));
    assert!(deleting.forward_errors.get("f2").is_some());
    send(&mut deleting, Message::DeleteProfile("p1".into()));
    assert!(deleting.forward_errors.get("f2").is_none());
}

#[test]
fn the_tray_is_set_up_with_a_refresh() {
    let mut app = app();
    assert_eq!(
        send(&mut app, Message::SetupTray(observed(vec![], 0))),
        vec!["SetActivationPolicy(false)", "CreateTray", "ReadLogs", "SyncTray"]
    );
}

#[test]
fn a_profile_is_added_and_edited() {
    let mut app = app();
    send(&mut app, Message::AddProfile);
    assert_eq!(app.profile_form.as_ref().unwrap().socks_port, "1082");
    // An incomplete form is not saved.
    assert_eq!(send(&mut app, Message::ProfileFormSave), nothing());
    assert!(app.profile_form.is_some());
    send(&mut app, Message::ProfileNameChanged("new".into()));
    send(&mut app, Message::ServerNodeIdChanged("node-new".into()));
    send(&mut app, Message::AuthKeyPicked(KeyChoice { id: "k1".into(), name: "n".into() }));
    send(&mut app, Message::SocksEnabledToggled(false));
    send(&mut app, Message::SocksPortChanged("1".into()));
    send(&mut app, Message::HttpEnabledToggled(true));
    send(&mut app, Message::HttpPortChanged("3128".into()));
    send(&mut app, Message::RelayUrlsChanged("https://r".into()));
    send(&mut app, Message::RelayAuthTokenChanged("tok".into()));
    assert_eq!(send(&mut app, Message::ProfileFormSave), vec!["Persist"]);
    let p = app.profile("fresh").unwrap();
    assert_eq!((p.name.as_str(), p.server_node_id.as_str()), ("new", "node-new"));
    assert_eq!((p.socks_port, p.http_port), (None, Some(3128)));
    assert_eq!(p.relay_urls, vec!["https://r"]);
    assert_eq!(p.relay_auth_token.as_deref(), Some("tok"));
    assert_eq!(app.selection, Selection::Profile("fresh".into()));
    assert_eq!(app.notice.as_deref(), Some("Saved."));
    assert!(app.profile_form.is_none());

    // A rename takes the log filter along; a running session has to reconnect.
    app.log_filter = Some("profile-p1".into());
    send(&mut app, Message::Tick(observed(vec![("p1", snapshot(Phase::Reconnecting))], 0)));
    send(&mut app, Message::EditProfile("p1".into()));
    assert_eq!(app.notice, None);
    send(&mut app, Message::ProfileNameChanged("renamed".into()));
    assert_eq!(send(&mut app, Message::ProfileFormSave), vec!["ReadLogs", "Persist"]);
    assert_eq!(app.log_filter.as_deref(), Some("renamed"));
    assert_eq!(app.notice.as_deref(), Some("Saved — reconnect to apply."));
    assert_eq!(app.profiles[0].forwards.len(), 2);
    // A notice that is there stays.
    send(&mut app, Message::EditProfile("p2".into()));
    send(&mut app, Message::SaveFailed("x".into()));
    send(&mut app, Message::ProfileFormSave);
    assert_eq!(app.notice.as_deref(), Some("Failed to save profiles: x"));

    send(&mut app, Message::EditProfile("nobody".into()));
    assert!(app.profile_form.is_none());
    send(&mut app, Message::AddProfile);
    send(&mut app, Message::ProfileFormCancel);
    assert!(app.profile_form.is_none());
    // Without a form, edits go nowhere.
    assert_eq!(send(&mut app, Message::ProfileNameChanged("x".into())), nothing());
    assert_eq!(send(&mut app, Message::ProfileFormSave), nothing());
}

#[test]
fn a_key_is_created_from_the_profile_form() {
    let generated = || GeneratedKey { public_key: "pub-new".into(), secret: "sec-new".into() };
    let mut app = app();
    assert_eq!(send(&mut app, Message::NewKeyCreate(generated())), nothing());
    send(&mut app, Message::AddProfile);
    send(&mut app, Message::NewKeyNameChanged("early".into()));
    assert_eq!(app.profile_form.as_ref().unwrap().new_key_name, None);
    send(&mut app, Message::NewKeyPrompt);
    // A blank or taken name creates nothing.
    assert_eq!(send(&mut app, Message::NewKeyCreate(generated())), nothing());
    send(&mut app, Message::NewKeyNameChanged("key k1".into()));
    assert_eq!(send(&mut app, Message::NewKeyCreate(generated())), nothing());
    send(&mut app, Message::NewKeyNameChanged(" new  key ".into()));
    send(&mut app, Message::NewKeyPrompt);
    assert_eq!(
        app.profile_form.as_ref().unwrap().new_key_name.as_deref(),
        Some(" new  key ")
    );
    assert_eq!(
        send(&mut app, Message::NewKeyCreate(generated())),
        vec!["Persist", "SaveKeySecret { id: \"fresh\", secret: \"sec-new\" }"]
    );
    assert_eq!(
        app.keys[2],
        AuthKey {
            id: "fresh".into(),
            name: "new key".into(),
            public_key: "pub-new".into(),
            secret: "sec-new".into(),
        }
    );
    let form = app.profile_form.as_ref().unwrap();
    assert_eq!(form.auth_key_id, "fresh");
    assert_eq!(form.new_key_name, None);
    send(&mut app, Message::NewKeyPrompt);
    send(&mut app, Message::NewKeyCancel);
    assert_eq!(app.profile_form.as_ref().unwrap().new_key_name, None);
}

#[test]
fn keys_are_added_and_edited() {
    let mut app = app();
    assert_eq!(send(&mut app, Message::KeyFormSave(Ok("p".into()))), nothing());
    send(&mut app, Message::AddKey);
    send(&mut app, Message::KeyNameChanged("third".into()));
    send(
        &mut app,
        Message::KeyGenerateSecret(GeneratedKey { public_key: "p".into(), secret: "g".into() }),
    );
    assert_eq!(app.key_form.as_ref().unwrap().secret, "g");
    send(&mut app, Message::KeySecretChanged(" s ".into()));
    assert_eq!(send(&mut app, Message::KeyFormSave(Err("odd".into()))), nothing());
    assert!(app.key_form.is_some());
    assert_eq!(
        send(&mut app, Message::KeyFormSave(Ok("pub-3".into()))),
        vec!["Persist", "SaveKeySecret { id: \"fresh\", secret: \"s\" }"]
    );
    assert_eq!(app.keys.len(), 3);
    assert_eq!(
        app.notice.as_deref(),
        Some("Saved — profiles using this key apply it on reconnect.")
    );
    assert!(app.key_form.is_none());

    // A rename leaves the stored secret alone.
    send(&mut app, Message::EditKey("k1".into()));
    assert_eq!(app.notice, None);
    send(&mut app, Message::KeyNameChanged("first".into()));
    assert_eq!(send(&mut app, Message::KeyFormSave(Ok("pub-k1".into()))), vec!["Persist"]);
    assert_eq!(app.keys[0].name, "first");
    send(&mut app, Message::EditKey("nobody".into()));
    assert!(app.key_form.is_none());
    send(&mut app, Message::AddKey);
    send(&mut app, Message::KeyFormCancel);
    assert!(app.key_form.is_none());
}

#[test]
fn a_used_key_is_not_deleted() {
    let mut app = app();
    send(&mut app, Message::ExportKey("k1".into()));
    for _ in 0..3 {
        assert_eq!(send(&mut app, Message::DeleteKey("k1".into())), nothing());
    }
    assert_eq!(app.keys.len(), 2);
    assert_eq!(app.confirm_export_key, None);
    assert_eq!(
        app.notice.as_deref(),
        Some("This key is used by profile \"profile-p1\" — repoint or delete that profile first.")
    );
    assert_eq!(send(&mut app, Message::DeleteKey("k2".into())), nothing());
    assert_eq!(app.keys.len(), 2);
    assert_eq!(
        send(&mut app, Message::DeleteKey("k2".into())),
        vec!["Persist", "DeleteKeySecret(\"k2\")"]
    );
    assert_eq!(app.keys.len(), 1);
    assert_eq!(app.confirm_delete_key, None);
    assert!(app.delete_key("k1".into()).is_empty());
    assert_eq!(app.keys.len(), 1);
}

#[test]
fn a_secret_is_copied_at_the_second_click() {
    let mut app = app();
    assert_eq!(send(&mut app, Message::ExportKey("k1".into())), nothing());
    assert_eq!(
        send(&mut app, Message::ExportKey("k1".into())),
        vec!["CopyText(\"secret-1\")"]
    );
    assert_eq!(
        app.notice.as_deref(),
        Some("Secret key of \"key k1\" copied — paste it into the key form of another install.")
    );
    assert_eq!(app.confirm_export_key, None);
    // A key without a secret has nothing to copy.
    send(&mut app, Message::ExportKey("k2".into()));
    assert_eq!(send(&mut app, Message::ExportKey("k2".into())), nothing());
    send(&mut app, Message::ExportKey("gone".into()));
    assert_eq!(send(&mut app, Message::ExportKey("gone".into())), nothing());
}

#[test]
fn forwards_are_added_edited_and_deleted() {
    let mut app = app();
    assert_eq!(send(&mut app, Message::FormSave), nothing());
    send(&mut app, Message::AddForward("p2".into()));
    assert_eq!(send(&mut app, Message::FormSave), nothing());
    send(&mut app, Message::FormLabelChanged("web".into()));
    send(&mut app, Message::FormLocalPortChanged("5000".into()));
    send(&mut app, Message::FormRemoteHostChanged("h".into()));
    send(&mut app, Message::FormRemotePortChanged("80".into()));
    send(&mut app, Message::FormEnabledToggled(false));
    // The port is taken in another profile.
    assert_eq!(send(&mut app, Message::FormSave), nothing());
    send(&mut app, Message::FormLocalPortChanged("6000".into()));
    match app
        .update_with(Message::FormSave, NewIds { id: "fresh".into(), imports: vec![] })
        .as_slice()
    {
        [Effect::Persist, Effect::SetForwards { profile_id, forwards }] => {
            assert_eq!(profile_id, "p2");
            assert_eq!(forwards.len(), 1);
            assert_eq!(forwards[0].id, "fresh");
            assert!(!forwards[0].enabled);
        }
        other => panic!("{other:?}"),
    }
    assert!(app.forward_form.is_none());

    app.forward_errors.insert("f1".into(), "old".into());
    send(&mut app, Message::EditForward("p1".into(), "f1".into()));
    send(&mut app, Message::FormLocalPortChanged("5005".into()));
    assert_eq!(send(&mut app, Message::FormSave).len(), 2);
    assert_eq!(app.profiles[0].forwards[0].local_port, 5005);
    assert_eq!(app.profiles[0].forwards.len(), 2);
    assert!(app.forward_errors.get("f1").is_none());

    send(&mut app, Message::EditForward("p1".into(), "nope".into()));
    assert!(app.forward_form.is_none());
    send(&mut app, Message::AddForward("gone".into()));
    send(&mut app, Message::FormCancel);
    assert!(app.forward_form.is_none());

    app.forward_errors.insert("f2".into(), "old".into());
    assert_eq!(send(&mut app, Message::DeleteForward("p1".into(), "nope".into())), nothing());
    assert_eq!(send(&mut app, Message::DeleteForward("gone".into(), "f2".into())), nothing());
    assert_eq!(send(&mut app, Message::DeleteForward("p1".into(), "f2".into())).len(), 2);
    assert_eq!(app.profiles[0].forwards.len(), 1);
    assert!(app.forward_errors.get("f2").is_none());
    assert_eq!(
        send(&mut app, Message::ToggleForward("p1".into(), "f2".into(), true)),
        nothing()
    );
    send(&mut app, Message::ToggleForward("p1".into(), "f1".into(), false));
    assert!(!app.profiles[0].forwards[0].enabled);
}

#[test]
fn exports_and_imports_report() {
    let mut app = app();
    assert_eq!(send(&mut app, Message::ExportProfiles), vec!["PickExportFile"]);
    assert_eq!(send(&mut app, Message::ImportProfiles), vec!["PickImportFile"]);
    assert_eq!(send(&mut app, Message::ExportPicked(None)), nothing());
    assert_eq!(send(&mut app, Message::ImportPicked(None)), nothing());
    assert_eq!(
        send(&mut app, Message::ExportPicked(Some("a".into()))),
        vec!["ExportProfiles(\"a\")"]
    );
    assert_eq!(
        send(&mut app, Message::ImportPicked(Some("b".into()))),
        vec!["ImportProfiles(\"b\")"]
    );
    send(&mut app, Message::ExportDone(Ok(())));
    assert_eq!(app.io_notice.as_deref(), Some("Exported 2 profile(s)."));
    send(&mut app, Message::ExportDone(Err("full".into())));
    assert_eq!(app.io_notice.as_deref(), Some("Export failed: full"));
    send(&mut app, Message::ImportRead(Err("odd".into())));
    assert_eq!(app.io_notice.as_deref(), Some("Import failed: odd"));
}

#[test]
fn imported_profiles_are_merged() {
    let mut app = app();
    send(&mut app, Message::Select(Selection::Logs));
    send(&mut app, Message::AddProfile);
    let mut replacing = profile("x", 2000, vec![forward("x1", 7000)]);
    replacing.server_node_id = "node-p2".into();
    replacing.forwards[0].enabled = false;
    let adding = profile("y", 3000, vec![]);
    let fresh = |p: &str, f: &[&str]| FreshIds {
        profile: p.into(),
        forwards: f.iter().map(|s| s.to_string()).collect(),
    };
    let ids = NewIds { id: "unused".into(), imports: vec![fresh("n1", &["nf1"]), fresh("n2", &[])] };
    match app.update_with(Message::ImportRead(Ok(vec![replacing, adding])), ids).as_slice() {
        [Effect::SetForwards { profile_id, forwards }, Effect::Persist] => {
            assert_eq!(profile_id, "p2");
            assert_eq!(forwards[0].id, "nf1");
        }
        other => panic!("{other:?}"),
    }
    assert_eq!(app.io_notice.as_deref(), Some("Imported: 1 added, 1 replaced."));
    assert_eq!(app.profiles.len(), 3);
    assert_eq!(app.profiles[1].id, "p2");
    assert_eq!(app.profiles[2].id, "n2");
    assert_eq!(app.selection, Selection::Profile("p1".into()));
    assert!(app.profile_form.is_none());
    // A selected profile stays selected.
    send(&mut app, Message::Select(Selection::Profile("p2".into())));
    app.update(Message::ImportRead(Ok(vec![])));
    assert_eq!(app.selection, Selection::Profile("p2".into()));
}

#[test]
fn the_log_pane_is_filtered() {
    let mut app = app();
    let lines = || {
        vec![
            "a [tunnel-profile-p1] x".to_string(),
            "b [main] y".to_string(),
            "c [tunnel-profile-p1] z".to_string(),
        ]
    };
    send(&mut app, Message::LogLines(lines()));
    assert_eq!(app.log_text, lines().join("\n"));
    assert_eq!(send(&mut app, Message::LogFilterChanged("profile-p1".into())), vec!["ReadLogs"]);
    send(&mut app, Message::LogLines(lines()));
    assert_eq!(app.log_text, "a [tunnel-profile-p1] x\nc [tunnel-profile-p1] z");
    assert_eq!(
        send(&mut app, Message::CopyLogs),
        vec!["CopyText(\"a [tunnel-profile-p1] x\\nc [tunnel-profile-p1] z\")"]
    );
    send(&mut app, Message::LogFilterChanged("All profiles".into()));
    assert_eq!(app.log_filter, None);
    assert_eq!(send(&mut app, Message::OpenLogFolder), vec!["OpenLogFolder"]);
}

#[test]
fn new_ids_are_drawn_at_random() {
    let mut app = app();
    app.update(Message::AddProfile);
    app.update(Message::ProfileNameChanged("new".into()));
    app.update(Message::ServerNodeIdChanged("node-new".into()));
    app.update(Message::AuthKeyPicked(KeyChoice { id: "k1".into(), name: "n".into() }));
    app.update(Message::ProfileFormSave);
    assert_eq!(app.profiles.len(), 3);
    assert_eq!(app.profiles[2].id.len(), 16);
    let imported = vec![profile("z", 4000, vec![forward("z1", 7100)])];
    app.update(Message::ImportRead(Ok(imported)));
    assert_eq!(app.profiles[3].id.len(), 16);
    assert_ne!(app.profiles[3].id, app.profiles[2].id);
    assert_eq!(app.profiles[3].forwards[0].id.len(), 16);
    let choice = KeyChoice { id: "k1".into(), name: "shown".into() };
    assert_eq!(choice.label(), "shown");
}
