//! What is stored of the keys and profiles, and where.
//!
//! Secrets are kept out of the stored document: each has a keychain entry of its own. The
//! development file holds them inline. Whether a forward is switched on is never stored.

use vstd::prelude::*;
use vstd::string::*;

use crate::config::{
    clone_opt, clone_strings, drop_invalid, drop_invalid_keys, key_views, profile_views, AuthKey,
    AuthKeyView, Profile, ProfileView,
};
use crate::forwards::{forward_views, PortForward, PortForwardView};
use crate::merge::{law_rules_are_those_of_screening, profiles_ok};
use crate::roster::{
    law_screened_is_well_formed, law_well_formed_is_unchanged, screened, valid_name, well_formed,
    Listed,
};
use crate::text::{opt_string, same_text};

verus! {

/// The service that the keychain entries belong to.
pub const KEYCHAIN_SERVICE: &'static str = "flextunnel-desktop";

/// The environment variable that swaps the keychain for a development file.
pub const DEV_CONFIG_ENV: &'static str = "FLEXTUNNEL_DEV_CONFIG";

/// What the environment says about the development file.
#[derive(Debug, PartialEq, Eq)]
pub enum DevConfig {
    /// There is none.
    Off,
    /// It is in its default place under the local data directory.
    DefaultPath,
    /// It is at this path.
    Path(String),
}

/// What a [`DevConfig`] holds.
#[verifier::ext_equal]
pub enum DevConfigView {
    Off,
    DefaultPath,
    Path(Seq<char>),
}

impl View for DevConfig {
    type V = DevConfigView;

    open spec fn view(&self) -> DevConfigView {
        match *self {
            DevConfig::Off => DevConfigView::Off,
            DevConfig::DefaultPath => DevConfigView::DefaultPath,
            DevConfig::Path(path) => DevConfigView::Path(path@),
        }
    }
}

/// What the variable's value says: unset or empty is off, `1` and `true` stand for the default
/// place, and anything else is a path.
pub open spec fn dev_config(value: Option<Seq<char>>) -> DevConfigView {
    match value {
        None => DevConfigView::Off,
        Some(v) => if v.len() == 0 {
            DevConfigView::Off
        } else if v == "1"@ || v == "true"@ {
            DevConfigView::DefaultPath
        } else {
            DevConfigView::Path(v)
        },
    }
}

/// Says where the development file is, by the variable's value.
pub fn dev_config_path(value: Option<String>) -> (r: DevConfig)
    ensures
        r@ == dev_config(opt_string(value)),
{
    match value {
        None => DevConfig::Off,
        Some(v) => if v.as_str().is_empty() {
            DevConfig::Off
        } else if same_text(v.as_str(), "1") || same_text(v.as_str(), "true") {
            DevConfig::DefaultPath
        } else {
            DevConfig::Path(v)
        },
    }
}

/// Where keys and profiles are stored.
#[derive(Debug, PartialEq, Eq)]
pub enum Backend {
    /// Secrets in the keychain, the rest in a document.
    Keychain,
    /// Everything in the development file at this path.
    File(String),
}

/// Chooses where to store: in the development file where there is one, else with the keychain if
/// it could be opened. `None`: there is no store.
pub fn init_store(dev_file: Option<String>, keychain_opened: bool) -> (r: Option<Backend>)
    ensures
        r == (match dev_file {
            Some(path) => Some(Backend::File(path)),
            None => if keychain_opened {
                Some(Backend::Keychain)
            } else {
                None
            },
        }),
{
    match dev_file {
        Some(path) => Some(Backend::File(path)),
        None => if keychain_opened {
            Some(Backend::Keychain)
        } else {
            None
        },
    }
}

/// Whether secrets are stored inline. As long as nothing was chosen, they are not.
pub open spec fn is_inline(backend: Option<Backend>) -> bool {
    backend matches Some(Backend::File(_))
}

fn has_file(backend: &Option<Backend>) -> (r: bool)
    ensures
        r == is_inline(*backend),
{
    match backend {
        Some(Backend::File(_)) => true,
        _ => false,
    }
}

/// Everything that the app keeps: the shared keys, and the profiles that refer to them.
#[derive(Debug, PartialEq, Eq)]
pub struct Store {
    pub keys: Vec<AuthKey>,
    pub profiles: Vec<Profile>,
}

/// What a [`Store`] holds.
#[verifier::ext_equal]
pub struct StoreView {
    pub keys: Seq<AuthKeyView>,
    pub profiles: Seq<ProfileView>,
}

impl View for Store {
    type V = StoreView;

    open spec fn view(&self) -> StoreView {
        StoreView { keys: key_views(self.keys@), profiles: profile_views(self.profiles@) }
    }
}

impl Default for Store {
    fn default() -> (r: Self)
        ensures
            r@ == (StoreView { keys: Seq::empty(), profiles: Seq::empty() }),
    {
        let r = Store { keys: Vec::new(), profiles: Vec::new() };
        assert(r@.keys == Seq::<AuthKeyView>::empty());
        assert(r@.profiles == Seq::<ProfileView>::empty());
        r
    }
}

/// A key as it is stored. Without a secret, the document has no such field.
#[derive(Debug, PartialEq, Eq)]
pub struct StoredKey {
    pub secret: Option<String>,
    pub id: String,
    pub name: String,
    pub public_key: String,
}

/// What a [`StoredKey`] holds.
#[verifier::ext_equal]
pub struct StoredKeyView {
    pub secret: Option<Seq<char>>,
    pub id: Seq<char>,
    pub name: Seq<char>,
    pub public_key: Seq<char>,
}

impl View for StoredKey {
    type V = StoredKeyView;

    open spec fn view(&self) -> StoredKeyView {
        StoredKeyView {
            secret: opt_string(self.secret),
            id: self.id@,
            name: self.name@,
            public_key: self.public_key@,
        }
    }
}

/// The document that is stored.
#[derive(Debug, PartialEq, Eq)]
pub struct Document {
    pub keys: Vec<StoredKey>,
    pub profiles: Vec<Profile>,
}

/// What a [`Document`] holds.
#[verifier::ext_equal]
pub struct DocumentView {
    pub keys: Seq<StoredKeyView>,
    pub profiles: Seq<ProfileView>,
}

/// The views of stored keys.
pub open spec fn stored_key_views(s: Seq<StoredKey>) -> Seq<StoredKeyView> {
    s.map_values(|k: StoredKey| k@)
}

impl View for Document {
    type V = DocumentView;

    open spec fn view(&self) -> DocumentView {
        DocumentView {
            keys: stored_key_views(self.keys@),
            profiles: profile_views(self.profiles@),
        }
    }
}

/// A key as it is stored, with its secret or without.
pub open spec fn stored_key(k: AuthKeyView, inline: bool) -> StoredKeyView {
    StoredKeyView {
        secret: if inline {
            Some(k.secret)
        } else {
            None
        },
        id: k.id,
        name: k.name,
        public_key: k.public_key,
    }
}

/// A stored key as it is loaded: without a secret in the document, its secret is empty.
pub open spec fn loaded_key(k: StoredKeyView, inline: bool) -> AuthKeyView {
    AuthKeyView {
        id: k.id,
        name: k.name,
        public_key: k.public_key,
        secret: match k.secret {
            Some(secret) if inline => secret,
            _ => Seq::empty(),
        },
    }
}

/// Forwards, all switched off.
pub open spec fn forwards_off(s: Seq<PortForwardView>) -> Seq<PortForwardView> {
    s.map_values(|f: PortForwardView| PortForwardView { enabled: false, ..f })
}

/// A profile with its forwards switched off.
pub open spec fn profile_off(p: ProfileView) -> ProfileView {
    ProfileView { forwards: forwards_off(p.forwards), ..p }
}

/// Profiles with their forwards switched off.
pub open spec fn profiles_off(s: Seq<ProfileView>) -> Seq<ProfileView> {
    s.map_values(|p: ProfileView| profile_off(p))
}

/// The document for keys and profiles, with secrets or without.
pub open spec fn saved(keys: Seq<AuthKeyView>, profiles: Seq<ProfileView>, inline: bool) -> DocumentView {
    DocumentView {
        keys: keys.map_values(|k: AuthKeyView| stored_key(k, inline)),
        profiles: profiles_off(profiles),
    }
}

/// What a document holds, before it is screened. Where nothing has been stored yet, nothing.
pub open spec fn opened(doc: Option<DocumentView>, inline: bool) -> StoreView {
    match doc {
        None => StoreView { keys: Seq::empty(), profiles: Seq::empty() },
        Some(d) => StoreView {
            keys: d.keys.map_values(|k: StoredKeyView| loaded_key(k, inline)),
            profiles: profiles_off(d.profiles),
        },
    }
}

fn copy_forwards_off(v: &Vec<PortForward>) -> (r: Vec<PortForward>)
    ensures
        forward_views(r@) == forwards_off(forward_views(v@)),
{
    let mut out: Vec<PortForward> = Vec::new();
    let mut i: usize = 0;
    while i < v.len()
        invariant
            i <= v.len(),
            out@.len() == i,
            forall|j: int|
                0 <= j < i ==> (#[trigger] out@[j])@ == (PortForwardView {
                    enabled: false,
                    ..v@[j]@
                }),
        decreases v.len() - i,
    {
        let mut f = v[i].clone();
        f.enabled = false;
        out.push(f);
        i += 1;
    }
    assert(forward_views(out@) == forwards_off(forward_views(v@)));
    out
}

fn copy_profiles_off(v: &[Profile]) -> (r: Vec<Profile>)
    ensures
        profile_views(r@) == profiles_off(profile_views(v@)),
{
    let mut out: Vec<Profile> = Vec::new();
    let mut i: usize = 0;
    while i < v.len()
        invariant
            i <= v.len(),
            out@.len() == i,
            forall|j: int| 0 <= j < i ==> (#[trigger] out@[j])@ == profile_off(v@[j]@),
        decreases v.len() - i,
    {
        let p = &v[i];
        let copy = Profile {
            id: p.id.clone(),
            name: p.name.clone(),
            server_node_id: p.server_node_id.clone(),
            auth_key_id: p.auth_key_id.clone(),
            socks_port: p.socks_port,
            http_port: p.http_port,
            relay_urls: clone_strings(&p.relay_urls),
            relay_auth_token: clone_opt(&p.relay_auth_token),
            forwards: copy_forwards_off(&p.forwards),
        };
        assert(copy@ == profile_off(p@));
        out.push(copy);
        i += 1;
    }
    assert(profile_views(out@) == profiles_off(profile_views(v@)));
    out
}

fn document(keys: &[AuthKey], profiles: &[Profile], inline: bool) -> (r: Document)
    ensures
        r@ == saved(key_views(keys@), profile_views(profiles@), inline),
{
    let mut out: Vec<StoredKey> = Vec::new();
    let mut i: usize = 0;
    while i < keys.len()
        invariant
            i <= keys.len(),
            out@.len() == i,
            forall|j: int| 0 <= j < i ==> (#[trigger] out@[j])@ == stored_key(keys@[j]@, inline),
        decreases keys.len() - i,
    {
        let k = &keys[i];
        out.push(
            StoredKey {
                secret: if inline {
                    Some(k.secret.clone())
                } else {
                    None
                },
                id: k.id.clone(),
                name: k.name.clone(),
                public_key: k.public_key.clone(),
            },
        );
        i += 1;
    }
    assert(stored_key_views(out@) == key_views(keys@).map_values(
        |k: AuthKeyView| stored_key(k, inline),
    ));
    Document { keys: out, profiles: copy_profiles_off(profiles) }
}

fn open_document(doc: &Option<Document>, inline: bool) -> (r: Store)
    ensures
        r@ == opened(opt_document(*doc), inline),
{
    let d = match doc {
        Some(d) => d,
        None => {
            return Store::default();
        },
    };
    let mut keys: Vec<AuthKey> = Vec::new();
    let mut i: usize = 0;
    while i < d.keys.len()
        invariant
            i <= d.keys.len(),
            keys@.len() == i,
            forall|j: int| 0 <= j < i ==> (#[trigger] keys@[j])@ == loaded_key(d.keys@[j]@, inline),
        decreases d.keys.len() - i,
    {
        let k = &d.keys[i];
        let secret = match &k.secret {
            Some(secret) => if inline {
                secret.clone()
            } else {
                String::new()
            },
            None => String::new(),
        };
        let key = AuthKey {
            id: k.id.clone(),
            name: k.name.clone(),
            public_key: k.public_key.clone(),
            secret,
        };
        assert(key@ == loaded_key(k@, inline));
        keys.push(key);
        i += 1;
    }
    assert(key_views(keys@) == stored_key_views(d.keys@).map_values(
        |k: StoredKeyView| loaded_key(k, inline),
    ));
    Store { keys, profiles: copy_profiles_off(d.profiles.as_slice()) }
}

/// The development file for keys and profiles, secrets included.
pub fn save_dev_file(keys: &[AuthKey], profiles: &[Profile]) -> (r: Document)
    ensures
        r@ == saved(key_views(keys@), profile_views(profiles@), true),
{
    document(keys, profiles, true)
}

/// What a development file holds. A missing file holds nothing.
pub fn load_dev_file(doc: &Option<Document>) -> (r: Store)
    ensures
        r@ == opened(opt_document(*doc), true),
{
    open_document(doc, true)
}

/// The document to store for keys and profiles.
pub fn save_store(backend: &Option<Backend>, keys: &[AuthKey], profiles: &[Profile]) -> (r: Document)
    ensures
        r@ == saved(key_views(keys@), profile_views(profiles@), is_inline(*backend)),
{
    if has_file(backend) {
        save_dev_file(keys, profiles)
    } else {
        document(keys, profiles, false)
    }
}

/// What the keychain has for a key.
#[derive(Debug, PartialEq, Eq)]
pub enum SecretLookup {
    Found(String),
    /// There is no such entry: the secret must be entered again.
    Missing,
    /// The keychain could not be read.
    Failed(String),
}

/// What a [`SecretLookup`] holds.
#[verifier::ext_equal]
pub enum SecretLookupView {
    Found(Seq<char>),
    Missing,
    Failed(Seq<char>),
}

impl View for SecretLookup {
    type V = SecretLookupView;

    open spec fn view(&self) -> SecretLookupView {
        match *self {
            SecretLookup::Found(s) => SecretLookupView::Found(s@),
            SecretLookup::Missing => SecretLookupView::Missing,
            SecretLookup::Failed(e) => SecretLookupView::Failed(e@),
        }
    }
}

/// The views of lookups.
pub open spec fn lookup_views(s: Seq<SecretLookup>) -> Seq<SecretLookupView> {
    s.map_values(|l: SecretLookup| l@)
}

/// The keys with the secrets that the keychain has for them, or the first failure to read it.
pub open spec fn with_secrets(keys: Seq<AuthKeyView>, lookups: Seq<SecretLookupView>) -> Result<
    Seq<AuthKeyView>,
    Seq<char>,
>
    decreases keys.len(),
{
    if keys.len() == 0 {
        Ok(Seq::empty())
    } else {
        match with_secrets(keys.drop_last(), lookups) {
            Err(e) => Err(e),
            Ok(front) => match lookups[keys.len() - 1] {
                SecretLookupView::Found(secret) => Ok(
                    front.push(AuthKeyView { secret, ..keys.last() }),
                ),
                SecretLookupView::Missing => Ok(front.push(keys.last())),
                SecretLookupView::Failed(e) => Err(e),
            },
        }
    }
}

/// The keys of a document, screened: those whose secrets are to be looked up.
pub open spec fn screened_keys(doc: Option<DocumentView>, inline: bool) -> Seq<AuthKeyView> {
    screened(opened(doc, inline).keys)
}

/// What is loaded from a document and the keychain: screened keys with their secrets, and screened
/// profiles.
pub open spec fn loaded(
    doc: Option<DocumentView>,
    inline: bool,
    lookups: Seq<SecretLookupView>,
) -> Result<StoreView, Seq<char>> {
    let profiles = screened(opened(doc, inline).profiles);
    if inline {
        Ok(StoreView { keys: screened_keys(doc, inline), profiles })
    } else {
        match with_secrets(screened_keys(doc, inline), lookups) {
            Ok(keys) => Ok(StoreView { keys, profiles }),
            Err(e) => Err(e),
        }
    }
}

/// The view of an optional document.
pub open spec fn opt_document(doc: Option<Document>) -> Option<DocumentView> {
    match doc {
        Some(d) => Some(d@),
        None => None,
    }
}

/// What a document holds, with its keys and profiles screened and without the secrets that are in
/// the keychain. A missing document holds nothing.
pub fn open_store(backend: &Option<Backend>, doc: &Option<Document>) -> (r: Store)
    ensures
        r@.keys == screened_keys(opt_document(*doc), is_inline(*backend)),
        r@.profiles == screened(opened(opt_document(*doc), is_inline(*backend)).profiles),
{
    let store = if has_file(backend) {
        load_dev_file(doc)
    } else {
        open_document(doc, false)
    };
    Store { keys: drop_invalid_keys(store.keys), profiles: drop_invalid(store.profiles) }
}

/// Fills in what the keychain has for the keys of an opened store, in their order. A key without
/// an entry keeps an empty secret; a keychain that cannot be read fails the load.
pub fn fill_secrets(store: Store, lookups: &[SecretLookup]) -> (r: Result<Store, String>)
    requires
        lookups@.len() == store.keys@.len(),
    ensures
        match r {
            Ok(s) => Ok(s@),
            Err(e) => Err(e@),
        } == (match with_secrets(store@.keys, lookup_views(lookups@)) {
            Ok(keys) => Ok(StoreView { keys, profiles: store@.profiles }),
            Err(e) => Err(e),
        }),
{
    let ghost all = store@.keys;
    let ghost looked = lookup_views(lookups@);
    let mut keys: Vec<AuthKey> = Vec::new();
    let mut i: usize = 0;
    assert(all.take(0) == Seq::<AuthKeyView>::empty());
    assert(key_views(keys@) == Seq::<AuthKeyView>::empty());
    while i < store.keys.len()
        invariant
            i <= store.keys.len(),
            lookups@.len() == store.keys@.len(),
            all == key_views(store.keys@),
            looked == lookup_views(lookups@),
            with_secrets(all.take(i as int), looked) == Ok::<Seq<AuthKeyView>, Seq<char>>(
                key_views(keys@),
            ),
        decreases store.keys.len() - i,
    {
        let ghost before = keys@;
        assert(all.take(i + 1).drop_last() == all.take(i as int));
        assert(all.take(i + 1).last() == store.keys@[i as int]@);
        assert(looked[i as int] == lookups@[i as int]@);
        let mut key = store.keys[i].clone();
        match &lookups[i] {
            SecretLookup::Found(secret) => {
                key.secret = secret.clone();
            },
            SecretLookup::Missing => {},
            SecretLookup::Failed(e) => {
                proof {
                    lemma_failure_stays(all, looked, i + 1);
                }
                return Err(e.clone());
            },
        }
        keys.push(key);
        assert(key_views(keys@) == key_views(before).push(key@));
        i += 1;
    }
    assert(all.take(all.len() as int) == all);
    Ok(Store { keys, profiles: store.profiles })
}

proof fn lemma_failure_stays(keys: Seq<AuthKeyView>, lookups: Seq<SecretLookupView>, n: int)
    requires
        0 <= n <= keys.len(),
        with_secrets(keys.take(n), lookups) is Err,
    ensures
        with_secrets(keys, lookups) == with_secrets(keys.take(n), lookups),
    decreases keys.len() - n,
{
    if n < keys.len() {
        assert(keys.take(n + 1).drop_last() == keys.take(n));
        lemma_failure_stays(keys, lookups, n + 1);
    } else {
        assert(keys.take(n) == keys);
    }
}

/// Loads the store from its document and from what the keychain has for the keys of the opened
/// document, in their order. With the development file nothing is looked up.
pub fn load_store(backend: &Option<Backend>, doc: &Option<Document>, lookups: &[SecretLookup]) -> (r:
    Result<Store, String>)
    requires
        !is_inline(*backend) ==> lookups@.len() == screened_keys(opt_document(*doc), false).len(),
    ensures
        match r {
            Ok(s) => Ok(s@),
            Err(e) => Err(e@),
        } == loaded(opt_document(*doc), is_inline(*backend), lookup_views(lookups@)),
{
    let inline = has_file(backend);
    let store = open_store(backend, doc);
    if inline {
        return Ok(store);
    }
    assert(store@.keys.len() == store.keys@.len());
    fill_secrets(store, lookups)
}

/// A write to the keychain.
#[derive(Debug, PartialEq, Eq)]
pub struct SecretWrite {
    pub account: String,
    pub secret: String,
}

/// The keychain entry to write when a key's secret has changed. None with the development file,
/// which already holds it.
pub fn save_key_secret(backend: &Option<Backend>, key_id: &str, secret: &str) -> (r: Option<
    SecretWrite,
>)
    ensures
        is_inline(*backend) ==> r is None,
        !is_inline(*backend) ==> (r matches Some(w) && w.account@ == key_id@ && w.secret@
            == secret@),
{
    if has_file(backend) {
        None
    } else {
        Some(SecretWrite { account: String::from_str(key_id), secret: String::from_str(secret) })
    }
}

/// The keychain entry to delete along with a key. None with the development file.
pub fn delete_key_secret(backend: &Option<Backend>, key_id: &str) -> (r: Option<String>)
    ensures
        opt_string(r) == (if is_inline(*backend) {
            None
        } else {
            Some(key_id@)
        }),
{
    if has_file(backend) {
        None
    } else {
        Some(String::from_str(key_id))
    }
}

/// Whether a list of keys keeps its rules: names are well formed, ids are not empty, and no two
/// keys share an id, a name or a public half.
pub open spec fn keys_ok(s: Seq<AuthKeyView>) -> bool {
    &&& forall|i: int| 0 <= i < s.len() ==> valid_name((#[trigger] s[i]).name) && s[i].id.len() > 0
    &&& forall|i: int, j: int|
        0 <= i < j < s.len() ==> (#[trigger] s[i]).id != (#[trigger] s[j]).id && s[i].name
            != s[j].name && s[i].public_key != s[j].public_key
}

proof fn lemma_key_rules(s: Seq<AuthKeyView>)
    ensures
        keys_ok(s) == well_formed(s),
{
    if well_formed(s) {
        assert forall|i: int, j: int| 0 <= i < j < s.len() implies (#[trigger] s[i]).id != (
        #[trigger] s[j]).id && s[i].name != s[j].name && s[i].public_key != s[j].public_key by {
            assert(s[i].entry_id() != s[j].entry_id());
        }
        assert forall|i: int| 0 <= i < s.len() implies valid_name((#[trigger] s[i]).name)
            && s[i].id.len() > 0 by {
            assert(valid_name(s[i].entry_name()));
        }
    }
    if keys_ok(s) {
        assert forall|i: int, j: int| 0 <= i < j < s.len() implies (#[trigger] s[i]).entry_id() != (
        #[trigger] s[j]).entry_id() && s[i].entry_name() != s[j].entry_name() && s[i].entry_mark()
            != s[j].entry_mark() by {
            assert(s[i].id != s[j].id);
        }
        assert forall|i: int| 0 <= i < s.len() implies valid_name((#[trigger] s[i]).entry_name())
            && (<AuthKeyView as Listed>::rejects_empty_id() ==> s[i].entry_id().len() > 0) by {
            assert(valid_name(s[i].name));
        }
    }
}

/// The rules for a list of keys are those that screening it establishes.
pub proof fn law_key_rules_are_those_of_screening(s: Seq<AuthKeyView>)
    ensures
        keys_ok(s) == well_formed(s),
        keys_ok(screened(s)),
        keys_ok(s) ==> screened(s) == s,
{
    lemma_key_rules(s);
    lemma_key_rules(screened(s));
    law_screened_is_well_formed(s);
    if keys_ok(s) {
        law_well_formed_is_unchanged(s);
    }
}

/// What the development file holds is what was saved in it, with every forward switched off.
pub proof fn law_dev_file_reads_back(keys: Seq<AuthKeyView>, profiles: Seq<ProfileView>)
    ensures
        opened(Some(saved(keys, profiles, true)), true) == (StoreView {
            keys,
            profiles: profiles_off(profiles),
        }),
{
    let r = opened(Some(saved(keys, profiles, true)), true);
    assert(r.keys == keys) by {
        assert forall|i: int| 0 <= i < keys.len() implies r.keys[i] == keys[i] by {}
    }
    lemma_off_twice(profiles);
}

proof fn lemma_off_twice(profiles: Seq<ProfileView>)
    ensures
        profiles_off(profiles_off(profiles)) == profiles_off(profiles),
{
    let a = profiles_off(profiles);
    let b = profiles_off(a);
    assert forall|i: int| 0 <= i < a.len() implies b[i] == a[i] by {
        assert(b[i].forwards == a[i].forwards);
    }
    assert(a == b);
}

proof fn lemma_off_keeps_rules(profiles: Seq<ProfileView>)
    requires
        profiles_ok(profiles),
    ensures
        profiles_ok(profiles_off(profiles)),
{
    let off = profiles_off(profiles);
    assert forall|i: int| 0 <= i < off.len() implies valid_name((#[trigger] off[i]).name) by {
        assert(valid_name(profiles[i].name));
    }
    assert forall|i: int, j: int| 0 <= i < j < off.len() implies (#[trigger] off[i]).id != (
    #[trigger] off[j]).id && off[i].name != off[j].name && off[i].server_node_id
        != off[j].server_node_id by {
        assert(profiles[i].id != profiles[j].id);
    }
}

/// Keys and profiles that keep their rules load from the development file as they were saved,
/// with every forward switched off.
pub proof fn law_dev_store_reads_back(
    keys: Seq<AuthKeyView>,
    profiles: Seq<ProfileView>,
    lookups: Seq<SecretLookupView>,
)
    requires
        keys_ok(keys),
        profiles_ok(profiles),
    ensures
        loaded(Some(saved(keys, profiles, true)), true, lookups) == Ok::<StoreView, Seq<char>>(
            StoreView { keys, profiles: profiles_off(profiles) },
        ),
{
    law_dev_file_reads_back(keys, profiles);
    lemma_off_keeps_rules(profiles);
    law_key_rules_are_those_of_screening(keys);
    law_rules_are_those_of_screening(profiles_off(profiles));
}

/// The keys without their secrets.
pub open spec fn without_secrets(keys: Seq<AuthKeyView>) -> Seq<AuthKeyView> {
    keys.map_values(|k: AuthKeyView| AuthKeyView { secret: Seq::empty(), ..k })
}

proof fn lemma_secrets_return(
    keys: Seq<AuthKeyView>,
    bare: Seq<AuthKeyView>,
    lookups: Seq<SecretLookupView>,
)
    requires
        bare == without_secrets(keys),
        keys.len() <= lookups.len(),
        forall|i: int|
            0 <= i < keys.len() ==> #[trigger] lookups[i] == SecretLookupView::Found(keys[i].secret),
    ensures
        with_secrets(bare, lookups) == Ok::<Seq<AuthKeyView>, Seq<char>>(keys),
    decreases keys.len(),
{
    if keys.len() > 0 {
        assert(bare.drop_last() == without_secrets(keys.drop_last()));
        lemma_secrets_return(keys.drop_last(), bare.drop_last(), lookups);
        assert(lookups[keys.len() - 1] == SecretLookupView::Found(keys.last().secret));
        assert(keys.drop_last().push(keys.last()) == keys);
        assert((AuthKeyView { secret: keys.last().secret, ..bare.last() }) == keys.last());
    } else {
        assert(keys == Seq::<AuthKeyView>::empty());
    }
}

/// Keys and profiles that keep their rules load from the document and the keychain as they were
/// saved, with every forward switched off, where the keychain gives back each key's secret.
pub proof fn law_keychain_store_reads_back(
    keys: Seq<AuthKeyView>,
    profiles: Seq<ProfileView>,
    lookups: Seq<SecretLookupView>,
)
    requires
        keys_ok(keys),
        profiles_ok(profiles),
        keys.len() == lookups.len(),
        forall|i: int|
            0 <= i < keys.len() ==> #[trigger] lookups[i] == SecretLookupView::Found(keys[i].secret),
    ensures
        loaded(Some(saved(keys, profiles, false)), false, lookups) == Ok::<StoreView, Seq<char>>(
            StoreView { keys, profiles: profiles_off(profiles) },
        ),
{
    let doc = Some(saved(keys, profiles, false));
    let bare = opened(doc, false).keys;
    assert(bare == without_secrets(keys));
    assert(keys_ok(bare)) by {
        assert forall|i: int| 0 <= i < bare.len() implies valid_name((#[trigger] bare[i]).name)
            && bare[i].id.len() > 0 by {
            assert(valid_name(keys[i].name));
        }
        assert forall|i: int, j: int| 0 <= i < j < bare.len() implies (#[trigger] bare[i]).id != (
        #[trigger] bare[j]).id && bare[i].name != bare[j].name && bare[i].public_key
            != bare[j].public_key by {
            assert(keys[i].id != keys[j].id);
        }
    }
    law_key_rules_are_those_of_screening(bare);
    lemma_secrets_return(keys, bare, lookups);
    lemma_off_twice(profiles);
    lemma_off_keeps_rules(profiles);
    law_rules_are_those_of_screening(profiles_off(profiles));
}

/// No secret is in the document that goes with a keychain: it is the same document whatever the
/// secrets are.
pub proof fn law_no_secret_in_the_document(
    keys: Seq<AuthKeyView>,
    others: Seq<AuthKeyView>,
    profiles: Seq<ProfileView>,
)
    requires
        without_secrets(keys) == without_secrets(others),
    ensures
        saved(keys, profiles, false) == saved(others, profiles, false),
{
    let a = saved(keys, profiles, false).keys;
    let b = saved(others, profiles, false).keys;
    let bare = without_secrets(keys);
    assert(bare.len() == keys.len() && bare.len() == others.len());
    assert forall|i: int| 0 <= i < a.len() implies a[i] == b[i] by {
        assert(bare[i] == (AuthKeyView { secret: Seq::empty(), ..keys[i] }));
        assert(bare[i] == (AuthKeyView { secret: Seq::empty(), ..others[i] }));
    }
    assert(a == b);
}

/// Whether a forward is switched on is in no document.
pub proof fn law_no_switch_in_the_document(
    keys: Seq<AuthKeyView>,
    profiles: Seq<ProfileView>,
    inline: bool,
)
    ensures
        saved(keys, profiles, inline) == saved(keys, profiles_off(profiles), inline),
{
    lemma_off_twice(profiles);
}

/// What is loaded keeps the rules for keys and profiles, whatever the document and the keychain
/// hold.
pub proof fn law_loaded_store_keeps_rules(
    doc: Option<DocumentView>,
    inline: bool,
    lookups: Seq<SecretLookupView>,
)
    ensures
        loaded(doc, inline, lookups) matches Ok(store) ==> keys_ok(store.keys) && profiles_ok(
            store.profiles,
        ),
{
    law_key_rules_are_those_of_screening(opened(doc, inline).keys);
    law_rules_are_those_of_screening(opened(doc, inline).profiles);
    let keys = screened_keys(doc, inline);
    if with_secrets(keys, lookups) is Ok {
        lemma_secrets_keep_the_rest(keys, lookups);
        let filled = with_secrets(keys, lookups)->Ok_0;
        assert forall|i: int| 0 <= i < filled.len() implies valid_name((#[trigger] filled[i]).name)
            && filled[i].id.len() > 0 by {
            assert(valid_name(keys[i].name));
        }
        assert forall|i: int, j: int| 0 <= i < j < filled.len() implies (#[trigger] filled[i]).id
            != (#[trigger] filled[j]).id && filled[i].name != filled[j].name
            && filled[i].public_key != filled[j].public_key by {
            assert(keys[i].id != keys[j].id);
        }
    }
}

proof fn lemma_secrets_keep_the_rest(keys: Seq<AuthKeyView>, lookups: Seq<SecretLookupView>)
    requires
        with_secrets(keys, lookups) is Ok,
    ensures
        ({
            let filled = with_secrets(keys, lookups)->Ok_0;
            &&& filled.len() == keys.len()
            &&& forall|i: int|
                0 <= i < keys.len() ==> (#[trigger] filled[i]).id == keys[i].id && filled[i].name
                    == keys[i].name && filled[i].public_key == keys[i].public_key
        }),
    decreases keys.len(),
{
    if keys.len() > 0 {
        lemma_secrets_keep_the_rest(keys.drop_last(), lookups);
    }
}

} // verus!
