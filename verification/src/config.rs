//! Connection profiles and the shared client keys that they refer to: what is stored of them,
//! where secrets go, and what a stored list must look like.
//!
//! Keys live in a shared, named list, and each profile refers to one by its id. Secrets are kept
//! out of the stored document: each has its own keychain entry. The development file is the one
//! exception and holds them inline.

use vstd::prelude::*;
use vstd::string::*;

use crate::forwards::{clone_forwards, forward_views, PortForward, PortForwardView};
use crate::ids::{is_id, random_id};
use crate::roster::{drop_unfit, screened, views, Entry, Listed};
use crate::text::{opt_string, same_text, strings};

pub use crate::roster::is_valid_name;

verus! {

/// The SOCKS5 port that is suggested first.
pub const DEFAULT_SOCKS_PORT: u16 = 1080;

/// The HTTP proxy port that is suggested. Deliberately high: 8080 is taken by many a server.
pub const DEFAULT_HTTP_PORT: u16 = 18080;

/// One named client keypair, shared by any number of profiles.
#[derive(Debug, PartialEq, Eq)]
pub struct AuthKey {
    pub id: String,
    pub name: String,
    /// The public half, which is what goes on a server's list of authorized keys.
    pub public_key: String,
    /// The secret half; empty where its keychain entry was lost.
    pub secret: String,
}

/// What an [`AuthKey`] holds.
#[verifier::ext_equal]
pub struct AuthKeyView {
    pub id: Seq<char>,
    pub name: Seq<char>,
    pub public_key: Seq<char>,
    pub secret: Seq<char>,
}

impl View for AuthKey {
    type V = AuthKeyView;

    open spec fn view(&self) -> AuthKeyView {
        AuthKeyView {
            id: self.id@,
            name: self.name@,
            public_key: self.public_key@,
            secret: self.secret@,
        }
    }
}

impl Clone for AuthKey {
    fn clone(&self) -> (r: Self)
        ensures
            r@ == self@,
    {
        AuthKey {
            id: self.id.clone(),
            name: self.name.clone(),
            public_key: self.public_key.clone(),
            secret: self.secret.clone(),
        }
    }
}

impl Listed for AuthKeyView {
    open spec fn entry_id(self) -> Seq<char> {
        self.id
    }

    open spec fn entry_name(self) -> Seq<char> {
        self.name
    }

    open spec fn entry_mark(self) -> Seq<char> {
        self.public_key
    }

    open spec fn rejects_empty_id() -> bool {
        true
    }
}

impl Entry for AuthKey {
    fn id_text(&self) -> &str {
        self.id.as_str()
    }

    fn name_text(&self) -> &str {
        self.name.as_str()
    }

    fn mark_text(&self) -> &str {
        self.public_key.as_str()
    }

    fn must_have_id() -> bool {
        true
    }
}

/// One connection profile: a server, the key to authenticate with, the local proxy ports and the
/// port forwards.
#[derive(Debug, PartialEq, Eq)]
pub struct Profile {
    pub id: String,
    pub name: String,
    pub server_node_id: String,
    /// The id of the shared key; empty where none is picked.
    pub auth_key_id: String,
    /// Local SOCKS5 port; `None` leaves that proxy off.
    pub socks_port: Option<u16>,
    /// Local HTTP proxy port; `None` leaves that proxy off.
    pub http_port: Option<u16>,
    pub relay_urls: Vec<String>,
    /// Bearer token for every custom relay.
    pub relay_auth_token: Option<String>,
    pub forwards: Vec<PortForward>,
}

/// What a [`Profile`] holds.
#[verifier::ext_equal]
pub struct ProfileView {
    pub id: Seq<char>,
    pub name: Seq<char>,
    pub server_node_id: Seq<char>,
    pub auth_key_id: Seq<char>,
    pub socks_port: Option<u16>,
    pub http_port: Option<u16>,
    pub relay_urls: Seq<Seq<char>>,
    pub relay_auth_token: Option<Seq<char>>,
    pub forwards: Seq<PortForwardView>,
}

impl View for Profile {
    type V = ProfileView;

    open spec fn view(&self) -> ProfileView {
        ProfileView {
            id: self.id@,
            name: self.name@,
            server_node_id: self.server_node_id@,
            auth_key_id: self.auth_key_id@,
            socks_port: self.socks_port,
            http_port: self.http_port,
            relay_urls: strings(self.relay_urls@),
            relay_auth_token: opt_string(self.relay_auth_token),
            forwards: forward_views(self.forwards@),
        }
    }
}

impl Clone for Profile {
    fn clone(&self) -> (r: Self)
        ensures
            r@ == self@,
    {
        Profile {
            id: self.id.clone(),
            name: self.name.clone(),
            server_node_id: self.server_node_id.clone(),
            auth_key_id: self.auth_key_id.clone(),
            socks_port: self.socks_port,
            http_port: self.http_port,
            relay_urls: clone_strings(&self.relay_urls),
            relay_auth_token: clone_opt(&self.relay_auth_token),
            forwards: clone_forwards(&self.forwards),
        }
    }
}

impl Listed for ProfileView {
    open spec fn entry_id(self) -> Seq<char> {
        self.id
    }

    open spec fn entry_name(self) -> Seq<char> {
        self.name
    }

    open spec fn entry_mark(self) -> Seq<char> {
        self.server_node_id
    }

    open spec fn rejects_empty_id() -> bool {
        false
    }
}

impl Entry for Profile {
    fn id_text(&self) -> &str {
        self.id.as_str()
    }

    fn name_text(&self) -> &str {
        self.name.as_str()
    }

    fn mark_text(&self) -> &str {
        self.server_node_id.as_str()
    }

    fn must_have_id() -> bool {
        false
    }
}

/// A copy of a list of strings.
pub fn clone_strings(v: &Vec<String>) -> (r: Vec<String>)
    ensures
        strings(r@) == strings(v@),
{
    let mut out: Vec<String> = Vec::new();
    let mut i: usize = 0;
    while i < v.len()
        invariant
            i <= v.len(),
            strings(out@) == strings(v@).take(i as int),
        decreases v.len() - i,
    {
        let ghost before = out@;
        out.push(v[i].clone());
        assert(strings(out@) == strings(before).push(v@[i as int]@));
        i += 1;
    }
    assert(strings(v@).take(v.len() as int) == strings(v@));
    out
}

/// A copy of an optional string.
pub fn clone_opt(s: &Option<String>) -> (r: Option<String>)
    ensures
        opt_string(r) == opt_string(*s),
{
    match s {
        Some(t) => Some(t.clone()),
        None => None,
    }
}

/// What a list of keys holds.
pub open spec fn key_views(s: Seq<AuthKey>) -> Seq<AuthKeyView> {
    s.map_values(|k: AuthKey| k@)
}

/// What a list of profiles holds.
pub open spec fn profile_views(s: Seq<Profile>) -> Seq<ProfileView> {
    s.map_values(|p: Profile| p@)
}

/// The first key with the given id; an empty id matches none.
pub open spec fn key_with_id(keys: Seq<AuthKeyView>, id: Seq<char>) -> Option<AuthKeyView>
    decreases keys.len(),
{
    if id.len() == 0 || keys.len() == 0 {
        None
    } else if keys[0].id == id {
        Some(keys[0])
    } else {
        key_with_id(keys.drop_first(), id)
    }
}

/// The view of an optional key.
pub open spec fn opt_key(k: Option<&AuthKey>) -> Option<AuthKeyView> {
    match k {
        Some(key) => Some(key@),
        None => None,
    }
}

/// The key with the given id, if any. An empty id never matches.
pub fn find_key<'a>(keys: &'a [AuthKey], id: &str) -> (r: Option<&'a AuthKey>)
    ensures
        opt_key(r) == key_with_id(key_views(keys@), id@),
{
    if id.is_empty() {
        return None;
    }
    let mut i: usize = 0;
    assert(key_views(keys@).skip(0) == key_views(keys@));
    while i < keys.len()
        invariant
            i <= keys.len(),
            id@.len() > 0,
            key_with_id(key_views(keys@), id@) == key_with_id(
                key_views(keys@).skip(i as int),
                id@,
            ),
        decreases keys.len() - i,
    {
        let ghost rest = key_views(keys@).skip(i as int);
        if same_text(keys[i].id.as_str(), id) {
            assert(rest[0] == keys@[i as int]@);
            return Some(&keys[i]);
        }
        assert(rest.drop_first() == key_views(keys@).skip(i + 1));
        i += 1;
    }
    None
}

impl AuthKey {
    /// A random identifier for a new key.
    pub fn new_id() -> (r: String)
        ensures
            is_id(r@),
    {
        random_id()
    }
}

impl ProfileView {
    /// Whether the profile can be connected with the keys at hand.
    pub open spec fn is_ready(self, keys: Seq<AuthKeyView>) -> bool {
        self.server_node_id.len() > 0 && match key_with_id(keys, self.auth_key_id) {
            Some(key) => key.secret.len() > 0,
            None => false,
        }
    }
}

impl Profile {
    /// A random identifier for a new profile.
    pub fn new_id() -> (r: String)
        ensures
            is_id(r@),
    {
        random_id()
    }

    /// Whether the profile can be connected: it names a server and refers to a key whose secret
    /// is present.
    pub fn is_ready(&self, keys: &[AuthKey]) -> (r: bool)
        ensures
            r == self@.is_ready(key_views(keys@)),
    {
        if self.server_node_id.as_str().is_empty() {
            return false;
        }
        match find_key(keys, self.auth_key_id.as_str()) {
            Some(key) => !key.secret.as_str().is_empty(),
            None => false,
        }
    }
}

/// Drops the keys of a list that somebody may have edited by hand which break its rules: an empty
/// or repeated id, a malformed or repeated name, a repeated public half. The first of those that
/// clash stays.
pub fn drop_invalid_keys(keys: Vec<AuthKey>) -> (r: Vec<AuthKey>)
    ensures
        key_views(r@) == screened(key_views(keys@)),
{
    assert(views(keys@) == key_views(keys@));
    let r = drop_unfit(keys);
    assert(views(r@) == key_views(r@));
    r
}

/// Drops the profiles of a list that somebody may have edited by hand which break its rules: a
/// repeated id, a malformed or repeated name, a repeated server. The first of those that clash
/// stays.
pub fn drop_invalid(profiles: Vec<Profile>) -> (r: Vec<Profile>)
    ensures
        profile_views(r@) == screened(profile_views(profiles@)),
{
    assert(views(profiles@) == profile_views(profiles@));
    let r = drop_unfit(profiles);
    assert(views(r@) == profile_views(r@));
    r
}

} // verus!
