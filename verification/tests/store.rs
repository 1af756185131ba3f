use flextunnel::config::{
    drop_invalid, drop_invalid_keys, find_key, is_valid_name, AuthKey, Profile,
};
use flextunnel::forwards::PortForward;
use flextunnel::merge::FreshIds;
use flextunnel::portable::{
    export_profiles, import_profiles, import_profiles_with_ids, PortableForward, PortableProfile,
};
use flextunnel::store::{
    delete_key_secret, dev_config_path, init_store, load_dev_file, load_store, open_store,
    save_dev_file, save_key_secret, save_store, Backend, DevConfig, Document, SecretLookup, Store,
    StoredKey, DEV_CONFIG_ENV, KEYCHAIN_SERVICE,
};

fn key() -> AuthKey {
    AuthKey {
        id: "key1".into(),
        name: "work laptop".into(),
        public_key: "flextunnelpubv1:abc".into(),
        // Distinctive sentinel so the leak-check assertions match the
        // secret *value* and don't collide with field names.
        secret: "ftc-secret-authtok".into(),
    }
}

fn profile() -> Profile {
    Profile {
        id: "00000000deadbeef".into(),
        name: "prod".into(),
        server_node_id: "node".into(),
        auth_key_id: "key1".into(),
        socks_port: Some(1085),
        http_port: Some(8081),
        relay_urls: vec!["https://relay.example".into()],
        relay_auth_token: Some("ftc-secret-relaypsk".into()),
        forwards: vec![PortForward {
            id: "aaaa".into(),
            label: "db".into(),
            local_port: 5432,
            remote_host: "db.internal".into(),
            remote_port: 5432,
            enabled: true,
        }],
    }
}

fn keychain() -> Option<Backend> {
    Some(Backend::Keychain)
}

fn file() -> Option<Backend> {
    Some(Backend::File("dev.json".into()))
}

#[test]
fn is_ready_requires_a_resolvable_secret() {
    let keys = [key()];
    assert!(profile().is_ready(&keys));

    let mut lost = key();
    lost.secret = String::new();
    assert!(!profile().is_ready(&[lost]), "lost keychain entry");

    assert!(!profile().is_ready(&[]), "dangling key reference");

    let mut unpicked = profile();
    unpicked.auth_key_id = String::new();
    assert!(!unpicked.is_ready(&keys), "no key picked");
}

#[test]
fn an_empty_id_finds_no_key() {
    let mut odd = key();
    odd.id = String::new();
    assert!(find_key(&[odd], "").is_none());
    assert_eq!(find_key(&[key()], "key1"), Some(&key()));
    assert!(find_key(&[key()], "key2").is_none());
    let mut serverless = profile();
    serverless.server_node_id = String::new();
    assert!(!serverless.is_ready(&[key()]));
}

#[test]
fn invalid_and_duplicate_keys_are_dropped() {
    let a = key();
    let mut same_id = key();
    same_id.name = "other".into();
    same_id.public_key = "flextunnelpubv1:other".into();
    let mut same_name = key();
    same_name.id = "key2".into();
    same_name.public_key = "flextunnelpubv1:def".into();
    let mut same_public = key();
    same_public.id = "key3".into();
    same_public.name = "same pubkey".into();
    let mut bad_name = key();
    bad_name.id = "key4".into();
    bad_name.name = " padded ".into();
    bad_name.public_key = "flextunnelpubv1:ghi".into();
    let mut empty_id = key();
    empty_id.id = String::new();
    empty_id.name = "no id".into();
    empty_id.public_key = "flextunnelpubv1:mno".into();
    let mut unique = key();
    unique.id = "key5".into();
    unique.name = "home".into();
    unique.public_key = "flextunnelpubv1:jkl".into();

    let kept = drop_invalid_keys(vec![
        a.clone(),
        same_id,
        same_name,
        same_public,
        bad_name,
        empty_id,
        unique.clone(),
    ]);
    assert_eq!(kept, vec![a, unique]);
}

#[test]
fn duplicate_ids_and_servers_are_dropped() {
    let a = profile();
    let mut same_server = profile();
    same_server.id = "b".into();
    same_server.name = "b".into();
    let mut same_id = profile();
    same_id.name = "c".into();
    same_id.server_node_id = "other".into();
    let mut same_name = profile();
    same_name.id = "n".into();
    same_name.server_node_id = "elsewhere".into();
    let mut bad_name = profile();
    bad_name.id = "w".into();
    bad_name.name = " padded ".into();
    bad_name.server_node_id = "padded-server".into();
    let mut unique = profile();
    unique.id = "d".into();
    unique.name = "d".into();
    unique.server_node_id = "unique".into();

    let kept = drop_invalid(vec![
        a.clone(),
        same_server,
        same_id,
        same_name,
        bad_name,
        unique.clone(),
    ]);
    assert_eq!(kept, vec![a, unique]);
}

#[test]
fn a_dropped_entry_still_claims_what_it_got_past() {
    let named = |id: &str, name: &str, server: &str| {
        let mut p = profile();
        p.id = id.into();
        p.name = name.into();
        p.server_node_id = server.into();
        p
    };
    // The second is dropped for its server, but its name is taken from then on.
    let kept = drop_invalid(vec![
        named("1", "a", "s"),
        named("2", "b", "s"),
        named("3", "b", "t"),
        named("2", "c", "u"),
    ]);
    assert_eq!(kept, vec![named("1", "a", "s")]);
    // An empty profile id is an id like another.
    assert_eq!(drop_invalid(vec![named("", "a", "s")]).len(), 1);
}

#[test]
fn name_format_rules() {
    assert!(is_valid_name("prod"));
    assert!(is_valid_name("staging aws kube"));

    assert!(!is_valid_name(""));
    assert!(!is_valid_name(" prod"));
    assert!(!is_valid_name("prod "));
    assert!(!is_valid_name("staging  aws"));
    assert!(!is_valid_name("staging\taws"));
    assert!(!is_valid_name("staging\naws"));
    assert!(!is_valid_name(&"a".repeat(65)));
}

#[test]
fn names_are_measured_in_characters() {
    assert!(is_valid_name(&"ü".repeat(64)));
    assert!(!is_valid_name(&"ü".repeat(65)));
    assert!(!is_valid_name("a\u{a0}b"));
}

#[test]
fn secret_never_serializes_in_store() {
    let doc = save_store(&keychain(), &[key()], &[profile()]);
    let text = format!("{doc:?}");
    assert!(!text.contains("ftc-secret-authtok"));
    assert!(text.contains("flextunnelpubv1:abc"));
    assert_eq!(doc.profiles[0].auth_key_id, "key1");
    assert!(!doc.profiles[0].forwards[0].enabled);
    assert_eq!(doc.profiles[0].relay_auth_token.as_deref(), Some("ftc-secret-relaypsk"));
    let mut other = key();
    other.secret = "another".into();
    assert_eq!(save_store(&None, &[other], &[profile()]), doc);
}

#[test]
fn dev_file_roundtrips_with_secrets_and_missing_is_empty() {
    let empty = load_dev_file(&None);
    assert!(empty.keys.is_empty() && empty.profiles.is_empty());

    let keys = vec![key()];
    let mut profiles = vec![profile()];
    let doc = save_dev_file(&keys, &profiles);
    assert_eq!(doc.keys[0].secret.as_deref(), Some("ftc-secret-authtok"));

    // Forward `enabled` is runtime-only: comes back off.
    profiles[0].forwards[0].enabled = false;
    let loaded = load_dev_file(&Some(doc));
    assert_eq!(loaded.keys, keys);
    assert_eq!(loaded.profiles, profiles);
}

#[test]
fn a_store_loads_from_its_document_and_the_keychain() {
    let mut off = profile();
    off.forwards[0].enabled = false;
    let expected = Store { keys: vec![key()], profiles: vec![off] };

    let doc = save_store(&keychain(), &[key()], &[profile()]);
    let found = SecretLookup::Found("ftc-secret-authtok".into());
    assert_eq!(load_store(&keychain(), &Some(doc), &[found]).unwrap(), expected);

    let doc = save_store(&file(), &[key()], &[profile()]);
    assert_eq!(load_store(&file(), &Some(doc), &[]).unwrap(), expected);

    assert_eq!(load_store(&keychain(), &None, &[]).unwrap(), Store::default());
}

#[test]
fn a_lost_or_locked_keychain() {
    let mut second = key();
    second.id = "key2".into();
    second.name = "home".into();
    second.public_key = "flextunnelpubv1:def".into();
    let doc = || Some(save_store(&keychain(), &[key(), second.clone()], &[]));
    let opened = open_store(&keychain(), &doc());
    assert_eq!(opened.keys.len(), 2);
    assert!(opened.keys.iter().all(|k| k.secret.is_empty()));

    let store = load_store(
        &keychain(),
        &doc(),
        &[SecretLookup::Missing, SecretLookup::Found("s".into())],
    )
    .unwrap();
    assert_eq!(store.keys[0].secret, "");
    assert_eq!(store.keys[1].secret, "s");

    let failed = load_store(
        &keychain(),
        &doc(),
        &[SecretLookup::Found("s".into()), SecretLookup::Failed("locked".into())],
    );
    assert_eq!(failed, Err("locked".to_string()));
    let first = load_store(
        &keychain(),
        &doc(),
        &[SecretLookup::Failed("a".into()), SecretLookup::Failed("b".into())],
    );
    assert_eq!(first, Err("a".to_string()));
}

#[test]
fn a_loaded_store_is_screened() {
    let stored = |id: &str, secret: Option<&str>| StoredKey {
        secret: secret.map(|s| s.to_string()),
        id: id.into(),
        name: "n".into(),
        public_key: "p".into(),
    };
    let doc = Document {
        keys: vec![stored("", Some("x")), stored("a", None), stored("a", Some("y"))],
        profiles: vec![profile(), profile()],
    };
    let store = load_store(&file(), &Some(doc), &[]).unwrap();
    assert_eq!(store.keys.len(), 1);
    assert_eq!(store.keys[0].secret, "");
    assert_eq!(store.profiles.len(), 1);
    assert!(!store.profiles[0].forwards[0].enabled);
    // A secret in a document that goes with a keychain is not trusted.
    let doc = Document { keys: vec![stored("a", Some("y"))], profiles: vec![] };
    let store = load_store(&keychain(), &Some(doc), &[SecretLookup::Missing]).unwrap();
    assert_eq!(store.keys[0].secret, "");
}

#[test]
fn secrets_are_written_to_the_keychain_only() {
    let write = save_key_secret(&keychain(), "key1", "s").unwrap();
    assert_eq!((write.account.as_str(), write.secret.as_str()), ("key1", "s"));
    assert!(save_key_secret(&None, "key1", "s").is_some());
    assert!(save_key_secret(&file(), "key1", "s").is_none());
    assert_eq!(delete_key_secret(&keychain(), "key1").as_deref(), Some("key1"));
    assert_eq!(delete_key_secret(&file(), "key1"), None);
    assert_eq!(KEYCHAIN_SERVICE, "flextunnel-desktop");
}

#[test]
fn the_environment_picks_the_development_file() {
    assert_eq!(DEV_CONFIG_ENV, "FLEXTUNNEL_DEV_CONFIG");
    assert_eq!(dev_config_path(None), DevConfig::Off);
    assert_eq!(dev_config_path(Some("".into())), DevConfig::Off);
    assert_eq!(dev_config_path(Some("1".into())), DevConfig::DefaultPath);
    assert_eq!(dev_config_path(Some("true".into())), DevConfig::DefaultPath);
    assert_eq!(dev_config_path(Some("/tmp/x".into())), DevConfig::Path("/tmp/x".into()));
    assert_eq!(dev_config_path(Some("TRUE".into())), DevConfig::Path("TRUE".into()));
    assert_eq!(init_store(Some("f".into()), false), Some(Backend::File("f".into())));
    assert_eq!(init_store(None, true), Some(Backend::Keychain));
    assert_eq!(init_store(None, false), None);
}

#[test]
fn export_strips_ids_and_import_regenerates_them() {
    let export = export_profiles(&[profile()]);
    let raw = format!("{export:?}");
    assert!(export[0].id.is_none() && export[0].forwards[0].id.is_none());
    assert!(export[0].auth_key_id.is_none() && export[0].relay_auth_token.is_none());
    assert!(!raw.contains("00000000deadbeef") && !raw.contains("aaaa"));
    assert!(!raw.contains("key1"));
    assert!(!raw.contains("ftc-secret-relaypsk"));
    // The non-secret relay setting it pairs with still travels.
    assert!(raw.contains("https://relay.example"));

    let imported = import_profiles(&export);
    assert_eq!(imported.len(), 1);
    let p = &imported[0];
    assert!(!p.id.is_empty(), "placeholder profile id assigned");
    assert!(p.auth_key_id.is_empty());
    assert_eq!(p.relay_auth_token, None);
    assert_eq!(p.relay_urls, profile().relay_urls);
    assert_eq!(p.name, profile().name);
    assert_eq!(p.socks_port, profile().socks_port);
    assert_eq!(p.forwards.len(), 1);
    assert!(!p.forwards[0].id.is_empty(), "placeholder forward id assigned");
    assert_eq!(p.forwards[0].local_port, profile().forwards[0].local_port);
}

/// Hand-written files can carry the relay token or an auth-key reference;
/// both are dropped rather than trusted, same as if never written.
#[test]
fn import_drops_untrusted_fields_present_in_the_file() {
    let file = vec![PortableProfile {
        id: None,
        name: "prod".into(),
        server_node_id: "node".into(),
        auth_key_id: Some("key1".into()),
        socks_port: None,
        http_port: None,
        relay_urls: vec!["https://relay.example".into()],
        relay_auth_token: Some("ftc-secret-relaypsk".into()),
        forwards: vec![],
    }];
    let imported = import_profiles(&file);
    assert_eq!(imported.len(), 1);
    assert!(imported[0].auth_key_id.is_empty());
    assert_eq!(imported[0].relay_auth_token, None);
    assert_eq!(imported[0].relay_urls, vec!["https://relay.example"]);
}

#[test]
fn an_import_keeps_the_ids_of_its_file_and_is_screened() {
    let entry = |id: Option<&str>, name: &str, server: &str| PortableProfile {
        id: id.map(|s| s.to_string()),
        name: name.into(),
        server_node_id: server.into(),
        auth_key_id: None,
        socks_port: None,
        http_port: Some(1),
        relay_urls: vec![],
        relay_auth_token: None,
        forwards: vec![PortableForward {
            id: id.map(|s| format!("{s}-f")),
            label: "l".into(),
            local_port: 1,
            remote_host: "h".into(),
            remote_port: 2,
        }],
    };
    let fresh = |n: &str| FreshIds { profile: n.into(), forwards: vec![format!("{n}-f")] };
    let file = vec![
        entry(Some("given"), "a", "s"),
        entry(None, "b", "t"),
        entry(None, " c", "u"),
        entry(None, "d", "t"),
    ];
    let got = import_profiles_with_ids(&file, &vec![fresh("1"), fresh("2"), fresh("3"), fresh("4")]);
    assert_eq!(got.len(), 2);
    assert_eq!(got[0].id, "given");
    assert_eq!(got[0].forwards[0].id, "given-f");
    assert_eq!(got[1].id, "2");
    assert_eq!(got[1].forwards[0].id, "2-f");
    assert!(!got[1].forwards[0].enabled);
}

#[test]
fn ids_are_random_and_sixteen_hex_digits() {
    let (a, b) = (Profile::new_id(), AuthKey::new_id());
    assert_ne!(a, b);
    for id in [a, b, PortForward::new_id()] {
        assert_eq!(id.len(), 16);
        assert!(id.chars().all(|c| c.is_ascii_digit() || ('a'..='f').contains(&c)));
    }
}
