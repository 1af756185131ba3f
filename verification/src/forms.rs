//! The form that profiles are added and edited in: what a filled-in form means, and what is wrong
//! with one that is refused.

use vstd::prelude::*;
use vstd::string::*;

use crate::config::{
    find_key, key_views, key_with_id, profile_views, AuthKey, AuthKeyView, Profile, ProfileView,
    DEFAULT_HTTP_PORT, DEFAULT_SOCKS_PORT,
};
use crate::forwards::{
    clone_forwards, forward_views, parse_port, port_field, Checked, PortForwardView,
};
use crate::ids::{is_id, random_id};
use crate::ports::{
    free_port_from, is_same_id, next_free_port, opt_str, owner_of_port, port_owner, quote, quoted,
};
use crate::text::{
    decimal, decimal_string, join, join_strings, list_entries, normalize_spaces, opt_string,
    parse_list, push_decimal, same_text, single_spaced, strings, trim, trimmed,
};

verus! {

/// The longest name that a form takes, in characters.
pub const FORM_NAME_LIMIT: usize = 64;

/// The slice of an optional string.
pub fn opt_slice(s: &Option<String>) -> (r: Option<&str>)
    ensures
        opt_str(r) == opt_string(*s),
{
    match s {
        Some(t) => Some(t.as_str()),
        None => None,
    }
}

/// The text of `s`, or the empty text.
pub open spec fn text_or_empty(s: Option<Seq<char>>) -> Seq<char> {
    match s {
        Some(t) => t,
        None => Seq::empty(),
    }
}

/// The text of `s`, or that of `other`.
pub open spec fn text_or(s: Option<Seq<char>>, other: Seq<char>) -> Seq<char> {
    match s {
        Some(t) => t,
        None => other,
    }
}

/// The buffers of the form that adds or edits a profile.
pub struct ProfileForm {
    /// The profile that is being edited; `None` when one is added.
    pub editing_id: Option<String>,
    pub name: String,
    pub server_node_id: String,
    /// The id of the picked key; empty while none is picked.
    pub auth_key_id: String,
    /// The name buffer of the prompt for a new key; `None` while the prompt is closed.
    pub new_key_name: Option<String>,
    pub socks_enabled: bool,
    pub socks_port: String,
    pub http_enabled: bool,
    pub http_port: String,
    pub relay_urls: String,
    pub relay_auth_token: String,
}

/// What a [`ProfileForm`] holds.
#[verifier::ext_equal]
pub struct ProfileFormView {
    pub editing_id: Option<Seq<char>>,
    pub name: Seq<char>,
    pub server_node_id: Seq<char>,
    pub auth_key_id: Seq<char>,
    pub new_key_name: Option<Seq<char>>,
    pub socks_enabled: bool,
    pub socks_port: Seq<char>,
    pub http_enabled: bool,
    pub http_port: Seq<char>,
    pub relay_urls: Seq<char>,
    pub relay_auth_token: Seq<char>,
}

impl View for ProfileForm {
    type V = ProfileFormView;

    open spec fn view(&self) -> ProfileFormView {
        ProfileFormView {
            editing_id: opt_string(self.editing_id),
            name: self.name@,
            server_node_id: self.server_node_id@,
            auth_key_id: self.auth_key_id@,
            new_key_name: opt_string(self.new_key_name),
            socks_enabled: self.socks_enabled,
            socks_port: self.socks_port@,
            http_enabled: self.http_enabled,
            http_port: self.http_port@,
            relay_urls: self.relay_urls@,
            relay_auth_token: self.relay_auth_token@,
        }
    }
}

/// Whether a profile other than `own` is called `name`.
pub open spec fn profile_name_taken(
    profiles: Seq<ProfileView>,
    name: Seq<char>,
    own: Option<Seq<char>>,
) -> bool {
    exists|i: int|
        0 <= i < profiles.len() && (#[trigger] profiles[i]).name == name && Some(profiles[i].id)
            != own
}

/// The name of the first profile other than `own` that connects to `server`.
pub open spec fn server_user(
    profiles: Seq<ProfileView>,
    server: Seq<char>,
    own: Option<Seq<char>>,
) -> Option<Seq<char>>
    decreases profiles.len(),
{
    if profiles.len() == 0 {
        None
    } else if profiles[0].server_node_id == server && Some(profiles[0].id) != own {
        Some(profiles[0].name)
    } else {
        server_user(profiles.drop_first(), server, own)
    }
}

/// The first profile with the given id.
pub open spec fn profile_with_id(profiles: Seq<ProfileView>, id: Seq<char>) -> Option<ProfileView>
    decreases profiles.len(),
{
    if profiles.len() == 0 {
        None
    } else if profiles[0].id == id {
        Some(profiles[0])
    } else {
        profile_with_id(profiles.drop_first(), id)
    }
}

/// The view of an optional profile.
pub open spec fn opt_profile(p: Option<&Profile>) -> Option<ProfileView> {
    match p {
        Some(profile) => Some(profile@),
        None => None,
    }
}

/// The profile with the given id, if any.
pub fn find_profile<'a>(profiles: &'a [Profile], id: &str) -> (r: Option<&'a Profile>)
    ensures
        opt_profile(r) == profile_with_id(profile_views(profiles@), id@),
{
    let ghost all = profile_views(profiles@);
    assert(all.skip(0) == all);
    let mut i: usize = 0;
    while i < profiles.len()
        invariant
            i <= profiles.len(),
            all == profile_views(profiles@),
            profile_with_id(all, id@) == profile_with_id(all.skip(i as int), id@),
        decreases profiles.len() - i,
    {
        assert(all.skip(i as int)[0] == profiles@[i as int]@);
        if same_text(profiles[i].id.as_str(), id) {
            return Some(&profiles[i]);
        }
        assert(all.skip(i as int).drop_first() == all.skip(i + 1));
        i += 1;
    }
    None
}

fn is_profile_name_taken(profiles: &[Profile], name: &str, own: Option<&str>) -> (r: bool)
    ensures
        r == profile_name_taken(profile_views(profiles@), name@, opt_str(own)),
{
    let ghost all = profile_views(profiles@);
    let mut i: usize = 0;
    while i < profiles.len()
        invariant
            i <= profiles.len(),
            all == profile_views(profiles@),
            forall|k: int|
                0 <= k < i ==> !((#[trigger] all[k]).name == name@ && Some(all[k].id) != opt_str(
                    own,
                )),
        decreases profiles.len() - i,
    {
        assert(all[i as int] == profiles@[i as int]@);
        if same_text(profiles[i].name.as_str(), name) && !is_same_id(profiles[i].id.as_str(), own) {
            return true;
        }
        i += 1;
    }
    false
}

fn find_server_user(profiles: &[Profile], server: &str, own: Option<&str>) -> (r: Option<String>)
    ensures
        opt_string(r) == server_user(profile_views(profiles@), server@, opt_str(own)),
{
    let ghost all = profile_views(profiles@);
    assert(all.skip(0) == all);
    let mut i: usize = 0;
    while i < profiles.len()
        invariant
            i <= profiles.len(),
            all == profile_views(profiles@),
            server_user(all, server@, opt_str(own)) == server_user(
                all.skip(i as int),
                server@,
                opt_str(own),
            ),
        decreases profiles.len() - i,
    {
        let p = &profiles[i];
        assert(all.skip(i as int)[0] == p@);
        if same_text(p.server_node_id.as_str(), server) && !is_same_id(p.id.as_str(), own) {
            return Some(p.name.clone());
        }
        assert(all.skip(i as int).drop_first() == all.skip(i + 1));
        i += 1;
    }
    None
}

/// The view of a checked optional port.
pub open spec fn checked_port(r: Checked<Option<u16>>) -> Result<Option<u16>, Seq<char>> {
    match r {
        Ok(p) => Ok(p),
        Err(e) => Err(e@),
    }
}

/// The port that an enabled proxy field holds, which nothing else may use; `None` for a proxy
/// that is off.
pub open spec fn proxy_port(
    enabled: bool,
    text: Seq<char>,
    field: Seq<char>,
    other: Option<u16>,
    clash: Seq<char>,
    profiles: Seq<ProfileView>,
    editing: Option<Seq<char>>,
) -> Result<Option<u16>, Seq<char>> {
    if !enabled {
        Ok(None)
    } else {
        match port_field(text, field) {
            Err(e) => Err(e),
            Ok(port) => if other == Some(port) {
                Err(clash)
            } else {
                match owner_of_port(profiles, port, editing, None) {
                    Some(owner) => Err(
                        field + " "@ + decimal(port as nat) + " is already used by "@ + owner,
                    ),
                    None => Ok(Some(port)),
                }
            },
        }
    }
}

fn check_proxy_port(
    enabled: bool,
    text: &str,
    field: &str,
    other: Option<u16>,
    clash: &str,
    profiles: &[Profile],
    editing: Option<&str>,
) -> (r: Checked<Option<u16>>)
    ensures
        checked_port(r) == proxy_port(
            enabled,
            text@,
            field@,
            other,
            clash@,
            profile_views(profiles@),
            opt_str(editing),
        ),
{
    if !enabled {
        return Ok(None);
    }
    let port = match parse_port(text, field) {
        Ok(port) => port,
        Err(e) => {
            return Err(e);
        },
    };
    if other == Some(port) {
        return Err(String::from_str(clash));
    }
    if let Some(owner) = port_owner(profiles, port, editing, None) {
        return Err(port_in_use(field, port, owner.as_str()));
    }
    Ok(Some(port))
}

/// The message that a port is in use.
pub fn port_in_use(field: &str, port: u16, owner: &str) -> (r: String)
    ensures
        r@ == field@ + " "@ + decimal(port as nat) + " is already used by "@ + owner@,
{
    let mut message = String::from_str(field);
    message.append(" ");
    push_decimal(&mut message, port as u128);
    message.append(" is already used by ");
    message.append(owner);
    message
}

/// The view of a checked profile.
pub open spec fn checked_profile(r: Checked<Profile>) -> Result<ProfileView, Seq<char>> {
    match r {
        Ok(p) => Ok(p@),
        Err(e) => Err(e@),
    }
}

/// The relay token that a field holds; `None` for a blank field.
pub open spec fn token_field(text: Seq<char>) -> Option<Seq<char>> {
    if trimmed(text).len() == 0 {
        None
    } else {
        Some(trimmed(text))
    }
}

impl ProfileFormView {
    /// What is wrong with the name, the server or the key of the form.
    pub open spec fn identity_error(
        self,
        profiles: Seq<ProfileView>,
        keys: Seq<AuthKeyView>,
    ) -> Option<Seq<char>> {
        let name = single_spaced(self.name);
        let server = trimmed(self.server_node_id);
        if name.len() == 0 {
            Some("Profile name is required"@)
        } else if name.len() > FORM_NAME_LIMIT {
            Some("Profile name must be 64 characters or fewer"@)
        } else if profile_name_taken(profiles, name, self.editing_id) {
            Some(quoted("Another profile is already named \""@, name, "\""@))
        } else if server.len() == 0 {
            Some("Server node id is required"@)
        } else if let Some(other) = server_user(profiles, server, self.editing_id) {
            Some(quoted("Profile \""@, other, "\" already connects to this server"@))
        } else if key_with_id(keys, self.auth_key_id) is None {
            Some("Pick an auth key (or create one with New key)"@)
        } else {
            None
        }
    }

    /// The SOCKS5 port of the form.
    pub open spec fn socks(self, profiles: Seq<ProfileView>) -> Result<Option<u16>, Seq<char>> {
        proxy_port(
            self.socks_enabled,
            self.socks_port,
            "SOCKS5 port"@,
            None,
            ""@,
            profiles,
            self.editing_id,
        )
    }

    /// The HTTP port of the form, which must differ from its SOCKS5 port.
    pub open spec fn http(self, profiles: Seq<ProfileView>, socks: Option<u16>) -> Result<
        Option<u16>,
        Seq<char>,
    > {
        proxy_port(
            self.http_enabled,
            self.http_port,
            "HTTP port"@,
            socks,
            "HTTP port must differ from the SOCKS5 port"@,
            profiles,
            self.editing_id,
        )
    }

    /// The forwards that the profile keeps: those of the profile that is being edited.
    pub open spec fn kept_forwards(self, profiles: Seq<ProfileView>) -> Seq<PortForwardView> {
        match self.editing_id {
            Some(id) => match profile_with_id(profiles, id) {
                Some(p) => p.forwards,
                None => Seq::empty(),
            },
            None => Seq::empty(),
        }
    }

    /// The profile that the filled-in form describes, or what is wrong with it. A profile that is
    /// added gets the id `fresh`.
    pub open spec fn checked(
        self,
        profiles: Seq<ProfileView>,
        keys: Seq<AuthKeyView>,
        fresh: Seq<char>,
    ) -> Result<ProfileView, Seq<char>> {
        match self.identity_error(profiles, keys) {
            Some(e) => Err(e),
            None => match self.socks(profiles) {
                Err(e) => Err(e),
                Ok(socks) => match self.http(profiles, socks) {
                    Err(e) => Err(e),
                    Ok(http) => if token_field(self.relay_auth_token) is Some && list_entries(
                        self.relay_urls,
                        ',',
                    ).len() == 0 {
                        Err("A relay auth token requires at least one relay URL"@)
                    } else {
                        Ok(
                            ProfileView {
                                id: text_or(self.editing_id, fresh),
                                name: single_spaced(self.name),
                                server_node_id: trimmed(self.server_node_id),
                                auth_key_id: self.auth_key_id,
                                socks_port: socks,
                                http_port: http,
                                relay_urls: list_entries(self.relay_urls, ','),
                                relay_auth_token: token_field(self.relay_auth_token),
                                forwards: self.kept_forwards(profiles),
                            },
                        )
                    },
                },
            },
        }
    }

    /// The form that adds a profile to the list.
    pub open spec fn adding(profiles: Seq<ProfileView>) -> ProfileFormView {
        ProfileFormView {
            editing_id: None,
            name: Seq::empty(),
            server_node_id: Seq::empty(),
            auth_key_id: Seq::empty(),
            new_key_name: None,
            socks_enabled: true,
            socks_port: decimal(free_port_from(profiles, DEFAULT_SOCKS_PORT) as nat),
            http_enabled: false,
            http_port: decimal(DEFAULT_HTTP_PORT as nat),
            relay_urls: Seq::empty(),
            relay_auth_token: Seq::empty(),
        }
    }

    /// The form that edits a profile.
    pub open spec fn editing(profile: ProfileView) -> ProfileFormView {
        ProfileFormView {
            editing_id: Some(profile.id),
            name: profile.name,
            server_node_id: profile.server_node_id,
            auth_key_id: profile.auth_key_id,
            new_key_name: None,
            socks_enabled: profile.socks_port is Some,
            socks_port: decimal(port_or(profile.socks_port, DEFAULT_SOCKS_PORT) as nat),
            http_enabled: profile.http_port is Some,
            http_port: decimal(port_or(profile.http_port, DEFAULT_HTTP_PORT) as nat),
            relay_urls: join(profile.relay_urls, ", "@),
            relay_auth_token: text_or_empty(profile.relay_auth_token),
        }
    }
}

/// The port, or `other` where there is none.
pub open spec fn port_or(port: Option<u16>, other: u16) -> u16 {
    match port {
        Some(p) => p,
        None => other,
    }
}

fn port_text(port: Option<u16>, other: u16) -> (r: String)
    ensures
        r@ == decimal(port_or(port, other) as nat),
{
    match port {
        Some(p) => decimal_string(p as u128),
        None => decimal_string(other as u128),
    }
}

impl ProfileForm {
    /// Whether the form edits a profile rather than adding one.
    pub fn is_edit(&self) -> (r: bool)
        ensures
            r == (self@.editing_id is Some),
    {
        self.editing_id.is_some()
    }

    /// The form that adds a profile, with a free SOCKS5 port filled in.
    pub fn add(profiles: &[Profile]) -> (r: Self)
        ensures
            r@ == ProfileFormView::adding(profile_views(profiles@)),
    {
        ProfileForm {
            editing_id: None,
            name: String::new(),
            server_node_id: String::new(),
            auth_key_id: String::new(),
            new_key_name: None,
            socks_enabled: true,
            socks_port: decimal_string(next_free_port(profiles) as u128),
            http_enabled: false,
            http_port: decimal_string(DEFAULT_HTTP_PORT as u128),
            relay_urls: String::new(),
            relay_auth_token: String::new(),
        }
    }

    /// The form that edits `profile`.
    pub fn edit(profile: &Profile) -> (r: Self)
        ensures
            r@ == ProfileFormView::editing(profile@),
    {
        ProfileForm {
            editing_id: Some(profile.id.clone()),
            name: profile.name.clone(),
            server_node_id: profile.server_node_id.clone(),
            auth_key_id: profile.auth_key_id.clone(),
            new_key_name: None,
            socks_enabled: profile.socks_port.is_some(),
            socks_port: port_text(profile.socks_port, DEFAULT_SOCKS_PORT),
            http_enabled: profile.http_port.is_some(),
            http_port: port_text(profile.http_port, DEFAULT_HTTP_PORT),
            relay_urls: join_strings(&profile.relay_urls, ", "),
            relay_auth_token: match &profile.relay_auth_token {
                Some(token) => token.clone(),
                None => String::new(),
            },
        }
    }

    fn check_identity(&self, profiles: &[Profile], keys: &[AuthKey]) -> (r: Option<String>)
        ensures
            opt_string(r) == self@.identity_error(profile_views(profiles@), key_views(keys@)),
    {
        let editing = opt_slice(&self.editing_id);
        let name = normalize_spaces(self.name.as_str());
        if name.as_str().is_empty() {
            return Some(String::from_str("Profile name is required"));
        }
        if name.as_str().unicode_len() > FORM_NAME_LIMIT {
            return Some(String::from_str("Profile name must be 64 characters or fewer"));
        }
        if is_profile_name_taken(profiles, name.as_str(), editing) {
            return Some(quote("Another profile is already named \"", name.as_str(), "\""));
        }
        let server = trim(self.server_node_id.as_str());
        if server.as_str().is_empty() {
            return Some(String::from_str("Server node id is required"));
        }
        if let Some(other) = find_server_user(profiles, server.as_str(), editing) {
            return Some(
                quote("Profile \"", other.as_str(), "\" already connects to this server"),
            );
        }
        if find_key(keys, self.auth_key_id.as_str()).is_none() {
            return Some(String::from_str("Pick an auth key (or create one with New key)"));
        }
        None
    }

    /// Checks the form and builds the profile that it describes. A profile that is added gets the
    /// id `fresh`; one that is edited keeps its id and its forwards.
    pub fn validate_with_id(
        &self,
        profiles: &[Profile],
        keys: &[AuthKey],
        fresh: String,
    ) -> (r: Checked<Profile>)
        ensures
            checked_profile(r) == self@.checked(
                profile_views(profiles@),
                key_views(keys@),
                fresh@,
            ),
    {
        if let Some(e) = self.check_identity(profiles, keys) {
            return Err(e);
        }
        let editing = opt_slice(&self.editing_id);
        let socks_port = match check_proxy_port(
            self.socks_enabled,
            self.socks_port.as_str(),
            "SOCKS5 port",
            None,
            "",
            profiles,
            editing,
        ) {
            Ok(port) => port,
            Err(e) => {
                return Err(e);
            },
        };
        let http_port = match check_proxy_port(
            self.http_enabled,
            self.http_port.as_str(),
            "HTTP port",
            socks_port,
            "HTTP port must differ from the SOCKS5 port",
            profiles,
            editing,
        ) {
            Ok(port) => port,
            Err(e) => {
                return Err(e);
            },
        };
        let relay_urls = parse_list(self.relay_urls.as_str(), ',');
        let token = trim(self.relay_auth_token.as_str());
        let relay_auth_token = if token.as_str().is_empty() {
            None
        } else {
            Some(token)
        };
        assert(strings(relay_urls@).len() == relay_urls.len());
        if relay_auth_token.is_some() && relay_urls.len() == 0 {
            return Err(String::from_str("A relay auth token requires at least one relay URL"));
        }
        let forwards = match editing {
            Some(id) => match find_profile(profiles, id) {
                Some(p) => clone_forwards(&p.forwards),
                None => Vec::new(),
            },
            None => Vec::new(),
        };
        assert(forward_views(forwards@) == self@.kept_forwards(
            profile_views(profiles@),
        ));
        let id = match &self.editing_id {
            Some(id) => id.clone(),
            None => fresh,
        };
        Ok(
            Profile {
                id,
                name: normalize_spaces(self.name.as_str()),
                server_node_id: trim(self.server_node_id.as_str()),
                auth_key_id: self.auth_key_id.clone(),
                socks_port,
                http_port,
                relay_urls,
                relay_auth_token,
                forwards,
            },
        )
    }

    /// Checks the form and builds the profile that it describes, with a random id where one is
    /// added.
    pub fn validate(&self, profiles: &[Profile], keys: &[AuthKey]) -> (r: Checked<Profile>)
        ensures
            exists|fresh: Seq<char>| #[trigger]
                is_id(fresh) && checked_profile(r) == self@.checked(
                    profile_views(profiles@),
                    key_views(keys@),
                    fresh,
                ),
    {
        let fresh = random_id();
        let ghost id = fresh@;
        let r = self.validate_with_id(profiles, keys, fresh);
        assert(is_id(id));
        r
    }
}

} // verus!
