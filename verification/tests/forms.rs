use flextunnel::config::{is_valid_name, AuthKey, Profile};
use flextunnel::forms::ProfileForm;
use flextunnel::forward::{ForwardState, ForwardStatus};
use flextunnel::forward_form::ForwardForm;
use flextunnel::forwards::{disable_failed_forwards, Checked, PortForward};
use flextunnel::key_form::{validate_key_name, KeyForm};
use flextunnel::merge::{merge_imported, merge_imported_with_ids, FreshIds};
use flextunnel::naming::unique_name;
use flextunnel::ports::{next_free_port, port_owner};

fn test_keys() -> Vec<AuthKey> {
    vec![AuthKey {
        id: "k1".into(),
        name: "work laptop".into(),
        public_key: "flxtpubv1:abc".into(),
        secret: "flxtsecretv1:xyz".into(),
    }]
}

fn valid_form() -> ProfileForm {
    ProfileForm {
        editing_id: None,
        name: " prod ".into(),
        server_node_id: " node-id ".into(),
        auth_key_id: "k1".into(),
        new_key_name: None,
        socks_enabled: true,
        socks_port: "1080".into(),
        http_enabled: false,
        http_port: "8080".into(),
        relay_urls: " https://a.example ,, https://b.example ".into(),
        relay_auth_token: String::new(),
    }
}

fn valid_forward_form() -> ForwardForm {
    ForwardForm {
        editing_id: None,
        label: "  db  ".into(),
        local_port: "5432".into(),
        remote_host: " db.internal ".into(),
        remote_port: "5432".into(),
        enabled: true,
    }
}

fn existing_forward(id: &str, local_port: u16) -> PortForward {
    PortForward {
        id: id.into(),
        label: String::new(),
        local_port,
        remote_host: "other.internal".into(),
        remote_port: 80,
        enabled: true,
    }
}

fn existing_profile(id: &str, socks_port: u16, forwards: Vec<PortForward>) -> Profile {
    Profile {
        id: id.into(),
        name: format!("profile-{id}"),
        server_node_id: "node".into(),
        auth_key_id: "k1".into(),
        socks_port: Some(socks_port),
        http_port: None,
        relay_urls: Vec::new(),
        relay_auth_token: None,
        forwards,
    }
}

#[test]
fn forward_form_trims_and_builds() {
    let profiles = [existing_profile("p1", 1080, vec![])];
    let forward = valid_forward_form().validate(&profiles).expect("valid");
    assert_eq!(forward.label, "db");
    assert_eq!(forward.local_port, 5432);
    assert_eq!(forward.remote_host, "db.internal");
    assert_eq!(forward.remote_port, 5432);
    assert!(forward.enabled);
    assert!(!forward.id.is_empty());
}

#[test]
fn forward_form_rejects_bad_input() {
    let base = [existing_profile("p1", 1080, vec![])];

    let mut form = valid_forward_form();
    form.local_port = "0".into();
    assert!(form.validate(&base).is_err());

    let mut form = valid_forward_form();
    form.remote_host = "  ".into();
    assert!(form.validate(&base).is_err());

    let mut form = valid_forward_form();
    form.remote_host = "networking..internal".into();
    assert!(form.validate(&base).is_err());

    let mut form = valid_forward_form();
    form.label = "x".repeat(65);
    assert!(form.validate(&base).is_err());

    let mut form = valid_forward_form();
    form.remote_port = "70000".into();
    assert!(form.validate(&base).is_err());

    // Collisions with any profile's proxy ports.
    let form = valid_forward_form();
    assert!(form.validate(&[existing_profile("p1", 5432, vec![])]).is_err());
    let mut http_profile = existing_profile("p1", 1080, vec![]);
    http_profile.http_port = Some(5432);
    assert!(form.validate(std::slice::from_ref(&http_profile)).is_err());

    // Duplicate local port among any profile's forwards…
    let taken = [existing_profile("p2", 1081, vec![existing_forward("aaaa", 5432)])];
    assert!(form.validate(&taken).is_err());

    // …unless it is the forward being edited (id reused).
    let mut form = valid_forward_form();
    form.editing_id = Some("aaaa".into());
    let edited = form.validate(&taken).expect("editing the same forward");
    assert_eq!(edited.id, "aaaa");
}

#[test]
fn forward_form_messages() {
    let base = [existing_profile("p1", 5432, vec![existing_forward("f", 9)])];
    let message = |change: fn(&mut ForwardForm)| {
        let mut form = valid_forward_form();
        change(&mut form);
        form.validate(&base).unwrap_err()
    };
    assert_eq!(
        message(|f| f.label = "x".repeat(65)),
        "Label must be 64 characters or fewer"
    );
    assert_eq!(
        message(|f| f.local_port = "x".into()),
        "Local port must be a number from 1 to 65535"
    );
    assert_eq!(message(|f| f.remote_host = " ".into()), "Remote host is required");
    assert_eq!(
        message(|f| f.remote_host = ".x".into()),
        "Remote host is not a valid host name or address"
    );
    assert_eq!(
        message(|f| f.remote_port = "".into()),
        "Remote port must be a number from 1 to 65535"
    );
    assert_eq!(
        message(|_| {}),
        "Local port 5432 is already used by the SOCKS5 port of profile \"profile-p1\""
    );
    assert_eq!(
        message(|f| f.local_port = "9".into()),
        "Local port 9 is already used by forward \"other.internal:80\" in profile \"profile-p1\""
    );
}

#[test]
fn forward_forms_open_empty_or_filled() {
    let empty = ForwardForm::add();
    assert!(!empty.is_edit() && empty.enabled && empty.local_port.is_empty());
    let form = ForwardForm::edit(&existing_forward("f1", 5000));
    assert!(form.is_edit());
    assert_eq!(form.local_port, "5000");
    assert_eq!(form.remote_host, "other.internal");
    assert_eq!(form.remote_port, "80");
    let forward = form.validate_with_id(&[], "fresh".into()).unwrap();
    assert_eq!(forward, existing_forward("f1", 5000));
    assert_eq!(
        valid_forward_form().validate_with_id(&[], "fresh".into()).unwrap().id,
        "fresh"
    );
}

#[test]
fn import_merges_by_server_id_and_uniquifies_names() {
    // "profile-p1" on server "node" (with a token), "profile-p2" on
    // "node-2".
    let mut current = vec![
        existing_profile("p1", 1080, vec![existing_forward("f1", 5000)]),
        existing_profile("p2", 1081, vec![]),
    ];
    current[1].server_node_id = "node-2".into();
    current[0].auth_key_id = "key-ref".into();
    current[0].relay_auth_token = Some("relay-psk".into());

    // Same server as p1: replaces settings/forwards, keeps id + secrets.
    // A relay token on an incoming entry is never trusted (imports strip
    // it); pretend a hand-edited one slipped through to prove that.
    let mut same_server = existing_profile("x", 2080, vec![existing_forward("f2", 6000)]);
    same_server.name = "renamed".into();
    same_server.relay_auth_token = Some("imported-psk".into());
    // New server, but colliding with p2's name: gets " - 2".
    let mut name_clash = existing_profile("y", 3080, vec![]);
    name_clash.name = "profile-p2".into();
    name_clash.server_node_id = "node-3".into();
    name_clash.relay_auth_token = Some("imported-psk".into());

    let (added, replaced) = merge_imported(&mut current, vec![same_server, name_clash]);
    assert_eq!(added, 1);
    assert_eq!(replaced, vec!["p1".to_string()]);

    let p1 = &current[0];
    assert_eq!(p1.id, "p1", "id kept");
    assert_eq!(p1.auth_key_id, "key-ref", "key reference kept");
    assert_eq!(
        p1.relay_auth_token.as_deref(),
        Some("relay-psk"),
        "existing relay token kept, not overwritten by the import"
    );
    assert_eq!(p1.name, "renamed");
    assert_eq!(p1.socks_port, Some(2080));
    assert_eq!(p1.forwards.len(), 1);
    assert_ne!(p1.forwards[0].id, "f2", "imported forward ids are fresh");

    let new = &current[2];
    assert_eq!(new.name, "profile-p2 - 2");
    assert!(new.auth_key_id.is_empty(), "no key reference in imports");
    assert_eq!(new.relay_auth_token, None, "no relay secret in imports");
    assert_ne!(new.id, "y", "imported profile ids are fresh");

    // A second import of the same name-clashing profile bumps to " - 3"
    // only if its server is also new; same server replaces in place.
    let mut again = existing_profile("z", 4080, vec![]);
    again.name = "profile-p2".into();
    again.server_node_id = "node-4".into();
    let (added, replaced) = merge_imported(&mut current, vec![again]);
    assert_eq!((added, replaced.len()), (1, 0));
    assert_eq!(current[3].name, "profile-p2 - 3");
}

#[test]
fn a_merge_uses_the_given_ids() {
    let mut current = vec![existing_profile("p1", 1080, vec![])];
    let mut incoming = existing_profile("x", 2080, vec![existing_forward("f2", 6000)]);
    incoming.server_node_id = "elsewhere".into();
    let fresh = vec![FreshIds { profile: "new".into(), forwards: vec!["new-f".into()] }];
    let (added, replaced) = merge_imported_with_ids(&mut current, vec![incoming], &fresh);
    assert_eq!((added, replaced.len()), (1, 0));
    assert_eq!(current[1].id, "new");
    assert_eq!(current[1].forwards[0].id, "new-f");
    assert_eq!(current[1].forwards[0].local_port, 6000);
}

#[test]
fn a_merge_leaves_others_alone_and_adds_once() {
    let mut other = existing_profile("p2", 1081, vec![existing_forward("f", 1)]);
    other.server_node_id = "elsewhere".into();
    let mut current = vec![existing_profile("p1", 1080, vec![]), other.clone()];
    let imported = || {
        let mut added = existing_profile("y", 3000, vec![existing_forward("g", 2)]);
        added.server_node_id = "new".into();
        vec![existing_profile("x", 2000, vec![]), added]
    };
    let (added, replaced) = merge_imported(&mut current, imported());
    assert_eq!((added, replaced), (1, vec!["p1".to_string()]));
    assert_eq!(current[1], other);
    let (added, replaced) = merge_imported(&mut current, imported());
    assert_eq!((added, replaced.len()), (0, 2));
    assert_eq!(current.len(), 3);
    assert_eq!(current[1], other);
}

#[test]
fn an_untouched_form_changes_nothing() {
    let mut full = existing_profile("p1", 1080, vec![existing_forward("f", 1)]);
    full.name = "staging aws kube".into();
    full.http_port = Some(18080);
    full.relay_urls = vec!["https://a.example".into(), "https://b.example".into()];
    full.relay_auth_token = Some("token".into());
    let mut plain = existing_profile("p2", 65535, vec![]);
    plain.server_node_id = "elsewhere".into();
    let profiles = [full, plain];
    for p in &profiles {
        assert_eq!(&ProfileForm::edit(p).validate(&profiles, &test_keys()).unwrap(), p);
    }
    // Two others that clash with each other are none of its business.
    let [full, plain] = profiles;
    let odd = [full.clone(), plain.clone(), plain];
    assert_eq!(ProfileForm::edit(&full).validate(&odd, &test_keys()).unwrap(), full);
}

#[test]
fn unique_name_respects_length_limit() {
    let taken = existing_profile("p1", 1080, vec![]);
    let mut long = existing_profile("p2", 1081, vec![]);
    long.name = "a".repeat(64);
    let profiles = [taken, long.clone()];
    let names: Vec<String> = profiles.iter().map(|p| p.name.clone()).collect();

    assert_eq!(unique_name("fresh".into(), &names), "fresh", "free names pass through");
    let bumped = unique_name(long.name.clone(), &names);
    assert_eq!(bumped, format!("{} - 2", "a".repeat(60)));
    assert!(bumped.len() <= 64);
    assert!(bumped.ends_with(" - 2"));
    assert!(is_valid_name(&bumped));
}

#[test]
fn unique_name_edges() {
    let taken = |names: &[&str]| names.iter().map(|n| n.to_string()).collect::<Vec<String>>();
    assert_eq!(unique_name("a".into(), &taken(&["a", "a - 2", "a - 4"])), "a - 3");
    // A space at the cut goes too.
    let spaced = format!("{} {}", "b".repeat(59), "c".repeat(4));
    assert_eq!(
        unique_name(spaced.clone(), &taken(&[&spaced])),
        format!("{} - 2", "b".repeat(59))
    );
    // The limit is in characters.
    let wide = "ü".repeat(64);
    assert_eq!(unique_name(wide.clone(), &taken(&[&wide])), format!("{} - 2", "ü".repeat(60)));
    let many: Vec<String> = std::iter::once("x".to_string())
        .chain((2..12).map(|n| format!("x - {n}")))
        .collect();
    assert_eq!(unique_name("x".into(), &many), "x - 12");
}

#[test]
fn name_whitespace_is_normalized() {
    let mut form = valid_form();
    form.name = "  staging   aws \t kube  ".into();
    let profile = form.validate(&[], &test_keys()).expect("valid");
    assert_eq!(profile.name, "staging aws kube");
    assert!(is_valid_name(&profile.name));
}

#[test]
fn validate_trims_and_parses() {
    let profile = valid_form().validate(&[], &test_keys()).expect("valid");
    assert_eq!(profile.name, "prod");
    assert_eq!(profile.server_node_id, "node-id");
    assert_eq!(profile.socks_port, Some(1080));
    assert_eq!(profile.http_port, None);
    assert_eq!(
        profile.relay_urls,
        vec!["https://a.example".to_string(), "https://b.example".to_string()]
    );
    assert!(!profile.id.is_empty());
    assert!(profile.forwards.is_empty());
}

#[test]
fn validate_rejects_bad_input() {
    let keys = test_keys();
    let mut form = valid_form();
    form.name = "  ".into();
    assert!(form.validate(&[], &keys).is_err());

    // No key picked, and a reference to a key that doesn't exist.
    let mut form = valid_form();
    form.auth_key_id = String::new();
    assert!(form.validate(&[], &keys).is_err());
    form.auth_key_id = "missing".into();
    assert!(form.validate(&[], &keys).is_err());

    let mut form = valid_form();
    form.socks_port = "0".into();
    assert!(form.validate(&[], &keys).is_err());

    let mut form = valid_form();
    form.http_enabled = true;
    form.http_port = form.socks_port.clone();
    assert!(form.validate(&[], &keys).is_err());

    let mut form = valid_form();
    form.server_node_id = "  ".into();
    assert!(form.validate(&[], &keys).is_err());

    // Duplicate profile name (they key tray submenus and log threads)…
    let existing = [existing_profile("p1", 2080, vec![])];
    let mut form = valid_form();
    form.name = " profile-p1 ".into();
    assert!(form.validate(&existing, &keys).is_err());
    // …unless it is the profile being edited.
    form.editing_id = Some("p1".into());
    assert!(form.validate(&existing, &keys).is_ok());

    // Duplicate server node id…
    let mut form = valid_form();
    form.server_node_id = "node".into();
    assert!(form.validate(&existing, &keys).is_err());
    // …unless it is the profile being edited.
    form.editing_id = Some("p1".into());
    assert!(form.validate(&existing, &keys).is_ok());
}

#[test]
fn profile_form_messages() {
    let keys = test_keys();
    let existing = [existing_profile("p1", 2080, vec![])];
    let message = |change: fn(&mut ProfileForm)| {
        let mut form = valid_form();
        change(&mut form);
        form.validate(&existing, &keys).unwrap_err()
    };
    assert_eq!(message(|f| f.name = " ".into()), "Profile name is required");
    assert_eq!(
        message(|f| f.name = "x".repeat(65)),
        "Profile name must be 64 characters or fewer"
    );
    assert_eq!(
        message(|f| f.name = "profile-p1".into()),
        "Another profile is already named \"profile-p1\""
    );
    assert_eq!(message(|f| f.server_node_id = "".into()), "Server node id is required");
    assert_eq!(
        message(|f| f.server_node_id = "node".into()),
        "Profile \"profile-p1\" already connects to this server"
    );
    assert_eq!(
        message(|f| f.auth_key_id = "".into()),
        "Pick an auth key (or create one with New key)"
    );
    assert_eq!(
        message(|f| f.socks_port = "x".into()),
        "SOCKS5 port must be a number from 1 to 65535"
    );
    assert_eq!(
        message(|f| f.socks_port = "2080".into()),
        "SOCKS5 port 2080 is already used by the SOCKS5 port of profile \"profile-p1\""
    );
    assert_eq!(
        message(|f| {
            f.http_enabled = true;
            f.http_port = "1080".into();
        }),
        "HTTP port must differ from the SOCKS5 port"
    );
    assert_eq!(
        message(|f| {
            f.relay_urls = " , ".into();
            f.relay_auth_token = "t".into();
        }),
        "A relay auth token requires at least one relay URL"
    );
    // A wide name of the largest size is accepted.
    let mut form = valid_form();
    form.name = "ü".repeat(64);
    assert!(form.validate(&existing, &keys).is_ok());
}

#[test]
fn profile_forms_open_with_suggestions_or_filled() {
    let form = ProfileForm::add(&[existing_profile("p1", 1080, vec![])]);
    assert!(!form.is_edit() && form.socks_enabled && !form.http_enabled);
    assert_eq!(form.socks_port, "1081");
    assert_eq!(form.http_port, "18080");
    let mut profile = existing_profile("p1", 1080, vec![existing_forward("f", 5)]);
    profile.relay_urls = vec!["a".into(), "b".into()];
    profile.relay_auth_token = Some("t".into());
    let form = ProfileForm::edit(&profile);
    assert!(form.is_edit());
    assert_eq!(form.socks_port, "1080");
    let saved = form
        .validate_with_id(&[profile.clone()], &test_keys(), "fresh".into())
        .unwrap();
    assert_eq!(saved, profile);
}

#[test]
fn key_form_validates() {
    let keys = test_keys();
    let secret = "flxtsecretv1:new".to_string();
    let parsed: Checked<String> = Ok("flxtpubv1:new".to_string());

    let form = KeyForm {
        editing_id: None,
        name: "  home   nas ".into(),
        secret: format!(" {secret} "),
    };
    assert_eq!(form.secret_text(), secret);
    let key = form.validate(&keys, &parsed).expect("valid");
    assert_eq!(key.name, "home nas");
    assert_eq!(key.secret, secret);
    assert!(!key.id.is_empty());
    assert_eq!(
        Some(key.public_key.clone()),
        form.public_key(&parsed),
        "stored public key matches the derived one"
    );

    // Empty name, empty secret, unparsable secret.
    let mut bad = KeyForm {
        editing_id: None,
        name: String::new(),
        secret: secret.clone(),
    };
    assert!(bad.validate(&keys, &parsed).is_err());
    bad.name = "ok".into();
    bad.secret = String::new();
    assert!(bad.validate(&keys, &parsed).is_err());
    bad.secret = "not-a-key".into();
    let unreadable: Checked<String> = Err("no such prefix".to_string());
    assert!(bad.validate(&keys, &unreadable).is_err());
    assert_eq!(bad.public_key(&unreadable), None);

    // Duplicate name…
    let mut dup = KeyForm {
        editing_id: None,
        name: "work laptop".into(),
        secret: secret.clone(),
    };
    assert!(dup.validate(&keys, &parsed).is_err());
    // …unless it is the key being edited.
    dup.editing_id = Some("k1".into());
    let edited = dup.validate(&keys, &parsed).expect("editing the same key");
    assert_eq!(edited.id, "k1");

    // The same keypair under a second name is an accidental re-add.
    let mut existing_pair = keys.clone();
    existing_pair.push(
        KeyForm {
            editing_id: None,
            name: "first".into(),
            secret: secret.clone(),
        }
        .validate(&keys, &parsed)
        .unwrap(),
    );
    let readd = KeyForm {
        editing_id: None,
        name: "second".into(),
        secret,
    };
    assert!(readd.validate(&existing_pair, &parsed).is_err());
}

#[test]
fn key_form_messages() {
    let keys = test_keys();
    let form = |name: &str, secret: &str| KeyForm {
        editing_id: None,
        name: name.into(),
        secret: secret.into(),
    };
    let parsed: Checked<String> = Ok("flxtpubv1:abc".to_string());
    let message = |f: KeyForm, p: &Checked<String>| f.validate(&keys, p).unwrap_err();
    assert_eq!(message(form(" ", "s"), &parsed), "Key name is required");
    assert_eq!(
        message(form(&"x".repeat(65), "s"), &parsed),
        "Key name must be 64 characters or fewer"
    );
    assert_eq!(
        message(form("work  laptop", "s"), &parsed),
        "Another key is already named \"work laptop\""
    );
    assert_eq!(
        message(form("n", " "), &parsed),
        "Secret key is required (generate one, or paste a flxtsecretv1: key)"
    );
    assert_eq!(
        message(form("n", "s"), &Err("odd".to_string())),
        "Invalid secret key: odd"
    );
    assert_eq!(
        message(form("n", "s"), &parsed),
        "Key \"work laptop\" already holds this secret"
    );
    assert!(!KeyForm::default().is_edit());
    let edit = KeyForm::edit(&keys[0]);
    assert!(edit.is_edit());
    assert_eq!(edit.editing_id(), Some("k1"));
    assert_eq!(edit.validate(&keys, &parsed).unwrap(), keys[0]);
    assert_eq!(validate_key_name(" a  b ", &keys, None), Ok("a b".to_string()));
}

#[test]
fn profile_ports_share_one_namespace() {
    let keys = test_keys();
    let existing = [existing_profile("p1", 1080, vec![existing_forward("f1", 5000)])];

    // Another profile's SOCKS port.
    let form = valid_form();
    assert!(form.validate(&existing, &keys).is_err());

    // Another profile's forward local port (as SOCKS or HTTP).
    let mut form = valid_form();
    form.socks_port = "5000".into();
    assert!(form.validate(&existing, &keys).is_err());
    let mut form = valid_form();
    form.socks_port = "1090".into();
    form.http_enabled = true;
    form.http_port = "5000".into();
    assert!(form.validate(&existing, &keys).is_err());

    // A free port is fine.
    let mut form = valid_form();
    form.socks_port = "1081".into();
    assert!(form.validate(&existing, &keys).is_ok());

    // Editing a profile skips its own proxy ports but keeps its forwards.
    let mut form = valid_form();
    form.editing_id = Some("p1".into());
    form.socks_port = "1080".into();
    let edited = form
        .validate(&existing, &keys)
        .expect("own port is not a clash");
    assert_eq!(edited.id, "p1");
    assert_eq!(edited.forwards, existing[0].forwards);

    // A forward in another profile can't take a port a new profile's own
    // forward holds — and vice versa (covered by forward_form tests).
    assert_eq!(next_free_port(&existing), 1081);
}

#[test]
fn ports_have_owners() {
    let mut p = existing_profile("p1", 1080, vec![existing_forward("f1", 5000)]);
    p.http_port = Some(8080);
    p.forwards[0].label = "db".into();
    let all = [p];
    let owner = |port, profile, forward| port_owner(&all, port, profile, forward);
    assert_eq!(
        owner(1080, None, None).as_deref(),
        Some("the SOCKS5 port of profile \"profile-p1\"")
    );
    assert_eq!(
        owner(8080, None, None).as_deref(),
        Some("the HTTP port of profile \"profile-p1\"")
    );
    assert_eq!(
        owner(5000, Some("p1"), None).as_deref(),
        Some("forward \"db\" in profile \"profile-p1\"")
    );
    assert_eq!(owner(1080, Some("p1"), None), None);
    assert_eq!(owner(5000, None, Some("f1")), None);
    assert_eq!(owner(9, None, None), None);
    // When every port from the default on is taken, the last one is suggested.
    let full: Vec<PortForward> =
        (1080..=65535).map(|port| existing_forward(&format!("f{port}"), port)).collect();
    let mut crowded = existing_profile("p", 1, full);
    crowded.socks_port = None;
    assert_eq!(next_free_port(&[crowded]), 65535);
}

#[test]
fn failed_forwards_are_switched_off() {
    let status = |id: &str, state: ForwardState| ForwardStatus {
        id: id.into(),
        state,
        active: 0,
        last_conn_error: None,
    };
    let mut off = existing_forward("c", 3);
    off.enabled = false;
    let mut forwards = vec![
        existing_forward("a", 1),
        existing_forward("b", 2),
        off,
        existing_forward("d", 4),
    ];
    let failed = disable_failed_forwards(
        &mut forwards,
        &[
            status("b", ForwardState::Failed("port 2 is in use".into())),
            status("a", ForwardState::Listening),
            status("c", ForwardState::Failed("old".into())),
        ],
    );
    assert_eq!(failed, vec![("b".to_string(), "port 2 is in use".to_string())]);
    let on: Vec<bool> = forwards.iter().map(|f| f.enabled).collect();
    assert_eq!(on, vec![true, false, false, true]);
    assert_eq!(forwards[1].local_port, 2);
}
