//! What the profile form and the key form promise of the fields that are filled in.

use vstd::prelude::*;
use vstd::string::*;

use crate::config::{key_with_id, AuthKeyView, ProfileView};
use crate::edit_laws::{
    is_complete, is_tidy, law_joined_list_reads_back, law_valid_name_is_unchanged,
};
use crate::field_laws::{is_used_port, law_used_ports_have_owners, lemma_numeral, reads_as_port};
use crate::form_laws::lemma_profile_at;
use crate::forms::{profile_with_id, server_user, ProfileFormView};
use crate::forwards::port_field;
use crate::key_form::{public_key_holder, KeyFormView};
use crate::ports::{free_port_from, law_free_port, owner_of_port};
use crate::roster::valid_name;
use crate::text::{decimal, join, list_entries, single_spaced, trimmed};
use crate::text_laws::law_trimming_takes_white_space_away;

verus! {

/// Whether a key has the given id, which is not empty.
pub open spec fn is_key(keys: Seq<AuthKeyView>, id: Seq<char>) -> bool {
    id.len() > 0 && exists|i: int| 0 <= i < keys.len() && (#[trigger] keys[i]).id == id
}

/// A key is found by its id exactly if there is one, and it is then the first with that id.
pub proof fn law_key_is_found_by_its_id(keys: Seq<AuthKeyView>, id: Seq<char>, i: int)
    requires
        0 <= i < keys.len(),
        keys[i].id == id,
        id.len() > 0,
        forall|j: int| 0 <= j < i ==> (#[trigger] keys[j]).id != id,
    ensures
        key_with_id(keys, id) == Some(keys[i]),
    decreases i,
{
    if i > 0 {
        assert(keys[0].id != id);
        let rest = keys.drop_first();
        assert forall|j: int| 0 <= j < i - 1 implies (#[trigger] rest[j]).id != id by {
            assert(keys[j + 1].id != id);
        }
        law_key_is_found_by_its_id(rest, id, i - 1);
    }
}

/// A key is found by its id exactly if a key has it; the empty id finds none.
pub proof fn law_key_is_found_if_there(keys: Seq<AuthKeyView>, id: Seq<char>)
    ensures
        key_with_id(keys, id) is Some <==> is_key(keys, id),
    decreases keys.len(),
{
    if id.len() > 0 && keys.len() > 0 {
        let rest = keys.drop_first();
        law_key_is_found_if_there(rest, id);
        if keys[0].id == id {
            assert(keys[0].id == id);
        } else {
            if is_key(rest, id) {
                let i = choose|i: int| 0 <= i < rest.len() && (#[trigger] rest[i]).id == id;
                assert(keys[i + 1].id == id);
            }
            if is_key(keys, id) {
                let i = choose|i: int| 0 <= i < keys.len() && (#[trigger] keys[i]).id == id;
                assert(rest[i - 1].id == id);
            }
        }
    }
}

/// Whether a profile other than `own` connects to `server`.
pub open spec fn other_connects_to(
    profiles: Seq<ProfileView>,
    server: Seq<char>,
    own: Option<Seq<char>>,
) -> bool {
    exists|i: int|
        0 <= i < profiles.len() && (#[trigger] profiles[i]).server_node_id == server && Some(
            profiles[i].id,
        ) != own
}

/// A server has another user exactly if another profile connects to it, and it is such a profile
/// that is named.
pub proof fn law_server_user(
    profiles: Seq<ProfileView>,
    server: Seq<char>,
    own: Option<Seq<char>>,
)
    ensures
        server_user(profiles, server, own) is Some <==> other_connects_to(profiles, server, own),
        server_user(profiles, server, own) matches Some(name) ==> exists|i: int|
            0 <= i < profiles.len() && (#[trigger] profiles[i]).server_node_id == server && Some(
                profiles[i].id,
            ) != own && profiles[i].name == name,
    decreases profiles.len(),
{
    if profiles.len() > 0 {
        let rest = profiles.drop_first();
        law_server_user(rest, server, own);
        if profiles[0].server_node_id == server && Some(profiles[0].id) != own {
            assert(profiles[0].server_node_id == server);
        } else {
            if let Some(name) = server_user(rest, server, own) {
                let i = choose|i: int|
                    0 <= i < rest.len() && (#[trigger] rest[i]).server_node_id == server && Some(
                        rest[i].id,
                    ) != own && rest[i].name == name;
                assert(profiles[i + 1].server_node_id == server);
            }
            if other_connects_to(profiles, server, own) {
                let i = choose|i: int|
                    0 <= i < profiles.len() && (#[trigger] profiles[i]).server_node_id == server
                        && Some(profiles[i].id) != own;
                assert(rest[i - 1].server_node_id == server);
            }
        }
    }
}

/// Whether a profile other than `own` has the name.
pub open spec fn other_is_named(
    profiles: Seq<ProfileView>,
    name: Seq<char>,
    own: Option<Seq<char>>,
) -> bool {
    exists|i: int|
        0 <= i < profiles.len() && (#[trigger] profiles[i]).name == name && Some(profiles[i].id)
            != own
}

/// Whether a proxy field gives the port `port`: none where the proxy is off, and otherwise the
/// port that the text reads as.
pub open spec fn gives_port(enabled: bool, text: Seq<char>, port: Option<u16>) -> bool {
    match port {
        None => !enabled,
        Some(p) => enabled && reads_as_port(text, p),
    }
}

/// Whether the port that a proxy is to get is in use elsewhere.
pub open spec fn is_taken_port(
    profiles: Seq<ProfileView>,
    port: Option<u16>,
    own: Option<Seq<char>>,
) -> bool {
    port is Some && is_used_port(profiles, port->0, own, None)
}

/// A profile form whose proxy fields give ports is accepted exactly if its name, its server and
/// its key can be used, its ports differ and are not in use, and a relay token comes with a relay.
/// The profile then has what the fields say, and keeps the forwards of the one that is edited.
pub proof fn law_accepted_profile_has_the_fields(
    form: ProfileFormView,
    profiles: Seq<ProfileView>,
    keys: Seq<AuthKeyView>,
    fresh: Seq<char>,
    socks: Option<u16>,
    http: Option<u16>,
)
    requires
        gives_port(form.socks_enabled, form.socks_port, socks),
        gives_port(form.http_enabled, form.http_port, http),
    ensures
        form.checked(profiles, keys, fresh) is Ok <==> {
            &&& 0 < single_spaced(form.name).len() <= 64
            &&& !other_is_named(profiles, single_spaced(form.name), form.editing_id)
            &&& trimmed(form.server_node_id).len() > 0
            &&& !other_connects_to(profiles, trimmed(form.server_node_id), form.editing_id)
            &&& is_key(keys, form.auth_key_id)
            &&& !is_taken_port(profiles, socks, form.editing_id)
            &&& !is_taken_port(profiles, http, form.editing_id)
            &&& socks is Some ==> socks != http
            &&& trimmed(form.relay_auth_token).len() > 0 ==> list_entries(
                form.relay_urls,
                ',',
            ).len() > 0
        },
        form.checked(profiles, keys, fresh) matches Ok(p) ==> {
            &&& p.name == single_spaced(form.name)
            &&& p.server_node_id == trimmed(form.server_node_id)
            &&& p.auth_key_id == form.auth_key_id
            &&& p.socks_port == socks
            &&& p.http_port == http
            &&& p.relay_urls == list_entries(form.relay_urls, ',')
            &&& p.relay_auth_token is None <==> trimmed(form.relay_auth_token).len() == 0
            &&& p.relay_auth_token is Some ==> p.relay_auth_token->0 == trimmed(
                form.relay_auth_token,
            )
            &&& form.editing_id is None ==> p.id == fresh && p.forwards.len() == 0
            &&& form.editing_id is Some ==> p.id == form.editing_id->0
        },
{
    law_server_user(profiles, trimmed(form.server_node_id), form.editing_id);
    law_key_is_found_if_there(keys, form.auth_key_id);
    if let Some(port) = socks {
        law_used_ports_have_owners(profiles, port, form.editing_id, None);
    }
    if let Some(port) = http {
        law_used_ports_have_owners(profiles, port, form.editing_id, None);
    }
}

/// A profile form with a proxy switched on whose field reads as no port is refused.
pub proof fn law_profile_needs_its_ports(
    form: ProfileFormView,
    profiles: Seq<ProfileView>,
    keys: Seq<AuthKeyView>,
    fresh: Seq<char>,
)
    requires
        (form.socks_enabled && forall|port: u16| !#[trigger] reads_as_port(form.socks_port, port))
            || (form.http_enabled && forall|port: u16| !#[trigger]
            reads_as_port(form.http_port, port)),
    ensures
        form.checked(profiles, keys, fresh) is Err,
{
    if let Ok(p) = form.checked(profiles, keys, fresh) {
        if form.socks_enabled {
            assert(reads_as_port(form.socks_port, p.socks_port->0));
        }
        if form.http_enabled {
            assert(reads_as_port(form.http_port, p.http_port->0));
        }
    }
}

/// Editing a profile does not touch its forwards, nor its id.
pub proof fn law_editing_keeps_the_forwards(
    form: ProfileFormView,
    profiles: Seq<ProfileView>,
    keys: Seq<AuthKeyView>,
    fresh: Seq<char>,
    i: int,
)
    requires
        0 <= i < profiles.len(),
        form.editing_id == Some(profiles[i].id),
        forall|j: int| 0 <= j < i ==> (#[trigger] profiles[j]).id != profiles[i].id,
    ensures
        form.checked(profiles, keys, fresh) matches Ok(p) ==> p.forwards == profiles[i].forwards
            && p.id == profiles[i].id,
{
    lemma_profile_at(profiles, profiles[i].id);
    let p = profile_with_id(profiles, profiles[i].id)->0;
    let k = choose|k: int|
        0 <= k < profiles.len() && #[trigger] profiles[k] == p && p.id == profiles[i].id && (forall|
            j: int,
        |
            0 <= j < k ==> (#[trigger] profiles[j]).id != profiles[i].id);
    if i < k {
        assert(profiles[i].id != profiles[i].id);
    }
    assert(k == i);
}

/// A new profile that is written down in the form is accepted and comes out as it was written,
/// with the new id and without forwards.
pub proof fn law_written_profile_is_read(
    p: ProfileView,
    profiles: Seq<ProfileView>,
    keys: Seq<AuthKeyView>,
)
    requires
        is_complete(p, keys),
        valid_name(p.name),
        p.forwards.len() == 0,
        !other_is_named(profiles, p.name, None),
        !other_connects_to(profiles, p.server_node_id, None),
        !is_taken_port(profiles, p.socks_port, None),
        !is_taken_port(profiles, p.http_port, None),
        p.socks_port is Some ==> p.socks_port != p.http_port,
    ensures
        (ProfileFormView {
            editing_id: None,
            new_key_name: None,
            name: p.name,
            server_node_id: p.server_node_id,
            auth_key_id: p.auth_key_id,
            socks_enabled: p.socks_port is Some,
            socks_port: decimal(p.socks_port->0 as nat),
            http_enabled: p.http_port is Some,
            http_port: decimal(p.http_port->0 as nat),
            relay_urls: join(p.relay_urls, ", "@),
            relay_auth_token: if p.relay_auth_token is Some {
                p.relay_auth_token->0
            } else {
                Seq::empty()
            },
        }).checked(profiles, keys, p.id) == Ok::<ProfileView, Seq<char>>(p),
{
    let form = ProfileFormView {
        editing_id: None,
        new_key_name: None,
        name: p.name,
        server_node_id: p.server_node_id,
        auth_key_id: p.auth_key_id,
        socks_enabled: p.socks_port is Some,
        socks_port: decimal(p.socks_port->0 as nat),
        http_enabled: p.http_port is Some,
        http_port: decimal(p.http_port->0 as nat),
        relay_urls: join(p.relay_urls, ", "@),
        relay_auth_token: if p.relay_auth_token is Some {
            p.relay_auth_token->0
        } else {
            Seq::empty()
        },
    };
    lemma_trimmed_tidy(p.server_node_id);
    lemma_trimmed_tidy(form.relay_auth_token);
    law_valid_name_is_unchanged(p.name);
    law_joined_list_reads_back(p.relay_urls);
    if let Some(port) = p.socks_port {
        lemma_numeral(port);
    }
    if let Some(port) = p.http_port {
        lemma_numeral(port);
    }
    law_key_is_found_if_there(keys, p.auth_key_id);
    law_accepted_profile_has_the_fields(form, profiles, keys, p.id, p.socks_port, p.http_port);
    let r = form.checked(profiles, keys, p.id)->Ok_0;
    assert(r.forwards == p.forwards);
    assert(r == p);
}

proof fn lemma_trimmed_tidy(s: Seq<char>)
    requires
        s.len() > 0 ==> is_tidy(s),
    ensures
        trimmed(s) == s,
{
    law_trimming_takes_white_space_away(Seq::empty(), s, Seq::empty());
    assert(Seq::<char>::empty() + s + Seq::<char>::empty() == s);
}

/// The form that adds a profile offers the first SOCKS5 port from 1080 on that nothing uses, and
/// leaves the HTTP proxy off; the rest is empty. The form that edits a profile shows what it has.
pub proof fn law_profile_forms_show_the_profile(profiles: Seq<ProfileView>, p: ProfileView)
    ensures
        ({
            let form = ProfileFormView::adding(profiles);
            &&& form.editing_id is None && form.new_key_name is None
            &&& form.name.len() == 0 && form.server_node_id.len() == 0
            &&& form.auth_key_id.len() == 0 && form.relay_urls.len() == 0
            &&& form.relay_auth_token.len() == 0
            &&& form.socks_enabled && !form.http_enabled
            &&& reads_as_port(form.http_port, 18080)
            &&& exists|port: u16| #[trigger]
                reads_as_port(form.socks_port, port) && 1080 <= port && (port < u16::MAX
                    ==> !is_used_port(profiles, port, None, None)) && forall|q: u16|
                    1080 <= q < port ==> #[trigger] is_used_port(profiles, q, None, None)
        }),
        ({
            let form = ProfileFormView::editing(p);
            &&& form.editing_id == Some(p.id) && form.new_key_name is None
            &&& form.name == p.name && form.server_node_id == p.server_node_id
            &&& form.auth_key_id == p.auth_key_id
            &&& form.socks_enabled <==> p.socks_port is Some
            &&& form.http_enabled <==> p.http_port is Some
            &&& form.socks_port == decimal(
                if p.socks_port is Some {
                    p.socks_port->0 as nat
                } else {
                    1080
                },
            )
            &&& form.http_port == decimal(
                if p.http_port is Some {
                    p.http_port->0 as nat
                } else {
                    18080
                },
            )
            &&& form.relay_urls == join(p.relay_urls, ", "@)
            &&& p.relay_auth_token is Some ==> form.relay_auth_token == p.relay_auth_token->0
            &&& p.relay_auth_token is None ==> form.relay_auth_token.len() == 0
        }),
{
    let form = ProfileFormView::adding(profiles);
    let port = free_port_from(profiles, 1080);
    law_free_port(profiles, 1080);
    lemma_numeral(port);
    lemma_numeral(18080);
    assert(reads_as_port(form.socks_port, port));
    law_used_ports_have_owners(profiles, port, None, None);
    assert forall|q: u16| 1080 <= q < port implies #[trigger] is_used_port(
        profiles,
        q,
        None,
        None,
    ) by {
        law_used_ports_have_owners(profiles, q, None, None);
    }
}

/// The profile form tells the first thing that is wrong: of the name, then of the server, then of
/// the key, then of the ports, then of the relay token.
pub proof fn law_profile_form_tells_the_first_fault(
    form: ProfileFormView,
    profiles: Seq<ProfileView>,
    keys: Seq<AuthKeyView>,
    fresh: Seq<char>,
)
    ensures
        ({
            let r = form.checked(profiles, keys, fresh);
            let name = single_spaced(form.name);
            let server = trimmed(form.server_node_id);
            let name_ok = 0 < name.len() <= 64 && !other_is_named(profiles, name, form.editing_id);
            let server_ok = server.len() > 0 && !other_connects_to(
                profiles,
                server,
                form.editing_id,
            );
            let key_ok = is_key(keys, form.auth_key_id);
            let no_socks = form.socks_enabled && forall|p: u16| !#[trigger]
                reads_as_port(form.socks_port, p);
            let no_http = form.http_enabled && forall|p: u16| !#[trigger]
                reads_as_port(form.http_port, p);
            &&& name.len() == 0 ==> r == Err::<ProfileView, Seq<char>>("Profile name is required"@)
            &&& name.len() > 64 ==> r == Err::<ProfileView, Seq<char>>(
                "Profile name must be 64 characters or fewer"@,
            )
            &&& 0 < name.len() <= 64 && !name_ok ==> r == Err::<ProfileView, Seq<char>>(
                "Another profile is already named \""@ + name + "\""@,
            )
            &&& name_ok && server.len() == 0 ==> r == Err::<ProfileView, Seq<char>>(
                "Server node id is required"@,
            )
            &&& name_ok && server.len() > 0 && !server_ok ==> exists|i: int|
                0 <= i < profiles.len() && (#[trigger] profiles[i]).server_node_id == server
                    && Some(profiles[i].id) != form.editing_id && r == Err::<
                    ProfileView,
                    Seq<char>,
                >("Profile \""@ + profiles[i].name + "\" already connects to this server"@)
            &&& name_ok && server_ok && !key_ok ==> r == Err::<ProfileView, Seq<char>>(
                "Pick an auth key (or create one with New key)"@,
            )
            &&& name_ok && server_ok && key_ok && no_socks ==> r == Err::<ProfileView, Seq<char>>(
                "SOCKS5 port"@ + " must be a number from 1 to 65535"@,
            )
            &&& name_ok && server_ok && key_ok && !form.socks_enabled && no_http ==> r == Err::<
                ProfileView,
                Seq<char>,
            >("HTTP port"@ + " must be a number from 1 to 65535"@)
            &&& name_ok && server_ok && key_ok && !form.socks_enabled && !form.http_enabled
                && trimmed(form.relay_auth_token).len() > 0 && list_entries(
                form.relay_urls,
                ',',
            ).len() == 0 ==> r == Err::<ProfileView, Seq<char>>(
                "A relay auth token requires at least one relay URL"@,
            )
        }),
{
    let server = trimmed(form.server_node_id);
    law_server_user(profiles, server, form.editing_id);
    law_key_is_found_if_there(keys, form.auth_key_id);
    if let Ok(p) = port_field(form.socks_port, "SOCKS5 port"@) {
        assert(reads_as_port(form.socks_port, p));
    }
    if let Ok(p) = port_field(form.http_port, "HTTP port"@) {
        assert(reads_as_port(form.http_port, p));
    }
    if let Some(name) = server_user(profiles, server, form.editing_id) {
        let i = choose|i: int|
            0 <= i < profiles.len() && (#[trigger] profiles[i]).server_node_id == server && Some(
                profiles[i].id,
            ) != form.editing_id && profiles[i].name == name;
        assert(profiles[i].server_node_id == server);
    }
}

/// Whether a key other than `own` has the name.
pub open spec fn other_key_is_named(
    keys: Seq<AuthKeyView>,
    name: Seq<char>,
    own: Option<Seq<char>>,
) -> bool {
    exists|i: int|
        0 <= i < keys.len() && (#[trigger] keys[i]).name == name && Some(keys[i].id) != own
}

/// Whether a key other than `own` has the public half.
pub open spec fn other_key_holds(
    keys: Seq<AuthKeyView>,
    public_key: Seq<char>,
    own: Option<Seq<char>>,
) -> bool {
    exists|i: int|
        0 <= i < keys.len() && (#[trigger] keys[i]).public_key == public_key && Some(keys[i].id)
            != own
}

/// A public half has another holder exactly if another key has it, and it is such a key that is
/// named.
pub proof fn law_public_key_holder(
    keys: Seq<AuthKeyView>,
    public_key: Seq<char>,
    own: Option<Seq<char>>,
)
    ensures
        public_key_holder(keys, public_key, own) is Some <==> other_key_holds(
            keys,
            public_key,
            own,
        ),
        public_key_holder(keys, public_key, own) matches Some(name) ==> exists|i: int|
            0 <= i < keys.len() && (#[trigger] keys[i]).public_key == public_key && Some(keys[i].id)
                != own && keys[i].name == name,
    decreases keys.len(),
{
    if keys.len() > 0 {
        let rest = keys.drop_first();
        law_public_key_holder(rest, public_key, own);
        if keys[0].public_key == public_key && Some(keys[0].id) != own {
            assert(keys[0].public_key == public_key);
        } else {
            if let Some(name) = public_key_holder(rest, public_key, own) {
                let i = choose|i: int|
                    0 <= i < rest.len() && (#[trigger] rest[i]).public_key == public_key && Some(
                        rest[i].id,
                    ) != own && rest[i].name == name;
                assert(keys[i + 1].public_key == public_key);
            }
            if other_key_holds(keys, public_key, own) {
                let i = choose|i: int|
                    0 <= i < keys.len() && (#[trigger] keys[i]).public_key == public_key && Some(
                        keys[i].id,
                    ) != own;
                assert(rest[i - 1].public_key == public_key);
            }
        }
    }
}

/// The key form is accepted exactly if the name can be used, the secret reads as a key, and no
/// other key holds it. The key then has the name and the secret that were filled in, and the
/// public half that the secret gives. Otherwise the form tells the first thing that is wrong.
pub proof fn law_accepted_key_has_the_fields(
    form: KeyFormView,
    keys: Seq<AuthKeyView>,
    parsed: Result<Seq<char>, Seq<char>>,
    fresh: Seq<char>,
)
    ensures
        ({
            let r = form.checked(keys, parsed, fresh);
            let name = single_spaced(form.name);
            let named = other_key_is_named(keys, name, form.editing_id);
            let name_ok = 0 < name.len() <= 64 && !named;
            let secret = trimmed(form.secret);
            &&& r is Ok <==> name_ok && secret.len() > 0 && parsed is Ok && !other_key_holds(
                keys,
                parsed->Ok_0,
                form.editing_id,
            )
            &&& r matches Ok(key) ==> {
                &&& key.name == name
                &&& key.secret == secret
                &&& Ok::<Seq<char>, Seq<char>>(key.public_key) == parsed
                &&& form.editing_id is None ==> key.id == fresh
                &&& form.editing_id is Some ==> key.id == form.editing_id->0
            }
            &&& name.len() == 0 ==> r == Err::<AuthKeyView, Seq<char>>("Key name is required"@)
            &&& name.len() > 64 ==> r == Err::<AuthKeyView, Seq<char>>(
                "Key name must be 64 characters or fewer"@,
            )
            &&& 0 < name.len() <= 64 && named ==> r == Err::<AuthKeyView, Seq<char>>(
                "Another key is already named \""@ + name + "\""@,
            )
            &&& name_ok && secret.len() == 0 ==> r == Err::<AuthKeyView, Seq<char>>(
                "Secret key is required (generate one, or paste a flxtsecretv1: key)"@,
            )
            &&& name_ok && secret.len() > 0 && parsed is Err ==> r == Err::<AuthKeyView, Seq<char>>(
                "Invalid secret key: "@ + parsed->Err_0,
            )
            &&& name_ok && secret.len() > 0 && parsed is Ok && r is Err ==> exists|i: int|
                0 <= i < keys.len() && (#[trigger] keys[i]).public_key == parsed->Ok_0 && Some(
                    keys[i].id,
                ) != form.editing_id && r == Err::<AuthKeyView, Seq<char>>(
                    "Key \""@ + keys[i].name + "\" already holds this secret"@,
                )
        }),
{
    if let Ok(public_key) = parsed {
        law_public_key_holder(keys, public_key, form.editing_id);
        if let Some(name) = public_key_holder(keys, public_key, form.editing_id) {
            let i = choose|i: int|
                0 <= i < keys.len() && (#[trigger] keys[i]).public_key == public_key && Some(
                    keys[i].id,
                ) != form.editing_id && keys[i].name == name;
            assert(keys[i].public_key == public_key);
        }
    }
}

/// A key that is written down in the form is accepted and comes out as it was written, whether it
/// is added or edited.
pub proof fn law_written_key_is_read(key: AuthKeyView, editing: bool, keys: Seq<AuthKeyView>)
    requires
        valid_name(key.name),
        is_tidy(key.secret),
        forall|i: int|
            0 <= i < keys.len() && !(editing && (#[trigger] keys[i]).id == key.id)
                ==> keys[i].name != key.name && keys[i].public_key != key.public_key,
    ensures
        (KeyFormView {
            editing_id: if editing {
                Some(key.id)
            } else {
                None
            },
            name: key.name,
            secret: key.secret,
        }).checked(keys, Ok(key.public_key), key.id) == Ok::<AuthKeyView, Seq<char>>(key),
        KeyFormView::editing(key).name == key.name,
        KeyFormView::editing(key).secret == key.secret,
        KeyFormView::editing(key).editing_id == Some(key.id),
        KeyFormView::adding().editing_id is None,
        KeyFormView::adding().name.len() == 0 && KeyFormView::adding().secret.len() == 0,
{
    let form = KeyFormView {
        editing_id: if editing {
            Some(key.id)
        } else {
            None
        },
        name: key.name,
        secret: key.secret,
    };
    law_valid_name_is_unchanged(key.name);
    lemma_trimmed_tidy(key.secret);
    assert forall|i: int| 0 <= i < keys.len() && Some((#[trigger] keys[i]).id) != form.editing_id
        implies keys[i].name != key.name && keys[i].public_key != key.public_key by {
        assert(!(editing && keys[i].id == key.id));
    }
    law_accepted_key_has_the_fields(form, keys, Ok(key.public_key), key.id);
}

/// Of a profile form whose name, server and key can be used, what is wrong with the ports is told
/// next: the SOCKS5 port before the HTTP port, a port that is the other one's before one that is
/// in use.
pub proof fn law_profile_form_tells_port_faults(
    form: ProfileFormView,
    profiles: Seq<ProfileView>,
    keys: Seq<AuthKeyView>,
    fresh: Seq<char>,
    socks: Option<u16>,
    http: u16,
)
    requires
        form.identity_error(profiles, keys) is None,
        gives_port(form.socks_enabled, form.socks_port, socks),
        form.http_enabled,
        reads_as_port(form.http_port, http),
    ensures
        ({
            let r = form.checked(profiles, keys, fresh);
            let socks_used = is_taken_port(profiles, socks, form.editing_id);
            &&& socks_used ==> r is Err && starts_with(
                r->Err_0,
                "SOCKS5 port "@ + decimal(socks->0 as nat) + " is already used by "@,
            )
            &&& !socks_used && socks == Some(http) ==> r == Err::<ProfileView, Seq<char>>(
                "HTTP port must differ from the SOCKS5 port"@,
            )
            &&& !socks_used && socks != Some(http) && is_used_port(
                profiles,
                http,
                form.editing_id,
                None,
            ) ==> r is Err && starts_with(
                r->Err_0,
                "HTTP port "@ + decimal(http as nat) + " is already used by "@,
            )
        }),
{
    reveal_strlit("SOCKS5 port ");
    reveal_strlit("SOCKS5 port");
    reveal_strlit("HTTP port ");
    reveal_strlit("HTTP port");
    reveal_strlit(" ");
    assert("SOCKS5 port "@ == "SOCKS5 port"@ + " "@);
    assert("HTTP port "@ == "HTTP port"@ + " "@);
    if let Some(port) = socks {
        law_used_ports_have_owners(profiles, port, form.editing_id, None);
        if let Some(owner) = owner_of_port(profiles, port, form.editing_id, None) {
            let told = "SOCKS5 port "@ + decimal(port as nat) + " is already used by "@;
            assert((told + owner).take(told.len() as int) == told);
        }
    }
    law_used_ports_have_owners(profiles, http, form.editing_id, None);
    if let Some(owner) = owner_of_port(profiles, http, form.editing_id, None) {
        let told = "HTTP port "@ + decimal(http as nat) + " is already used by "@;
        assert((told + owner).take(told.len() as int) == told);
    }
}

/// Whether a text starts with another one.
pub open spec fn starts_with(s: Seq<char>, start: Seq<char>) -> bool {
    s.len() >= start.len() && s.take(start.len() as int) == start
}

} // verus!
