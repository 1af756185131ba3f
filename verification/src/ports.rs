//! The local ports in use. Profiles can run at the same time, so all their local ports share one
//! namespace.

use vstd::prelude::*;
use vstd::string::*;

use crate::config::{profile_views, Profile, ProfileView, DEFAULT_SOCKS_PORT};
use crate::forwards::{forward_views, PortForward, PortForwardView};
use crate::text::{opt_string, same_text};

verus! {

/// The view of an optional string slice.
pub open spec fn opt_str(s: Option<&str>) -> Option<Seq<char>> {
    match s {
        Some(t) => Some(t@),
        None => None,
    }
}

/// Whether `id` is the one that is given, if any is.
pub fn is_same_id(id: &str, own: Option<&str>) -> (r: bool)
    ensures
        r == (Some(id@) == opt_str(own)),
{
    match own {
        Some(other) => same_text(id, other),
        None => false,
    }
}

/// A text between `before` and `after`, which hold the quotes around it.
pub open spec fn quoted(before: Seq<char>, name: Seq<char>, after: Seq<char>) -> Seq<char> {
    before + name + after
}

/// A text between `before` and `after`.
pub fn quote(before: &str, name: &str, after: &str) -> (r: String)
    ensures
        r@ == quoted(before@, name@, after@),
{
    let mut out = String::from_str(before);
    out.append(name);
    out.append(after);
    out
}

/// How the first of a profile's forwards on `port` is described, leaving out the one with the id
/// `skip`.
pub open spec fn forward_owner(
    forwards: Seq<PortForwardView>,
    profile: Seq<char>,
    port: u16,
    skip: Option<Seq<char>>,
) -> Option<Seq<char>>
    decreases forwards.len(),
{
    if forwards.len() == 0 {
        None
    } else if Some(forwards[0].id) != skip && forwards[0].local_port == port {
        Some(
            quoted("forward \""@, forwards[0].display_name(), "\" in profile \""@) + quoted(
                Seq::empty(),
                profile,
                "\""@,
            ),
        )
    } else {
        forward_owner(forwards.drop_first(), profile, port, skip)
    }
}

/// How a profile's use of `port` is described.
pub open spec fn profile_owner(
    profile: ProfileView,
    port: u16,
    skip_profile: Option<Seq<char>>,
    skip_forward: Option<Seq<char>>,
) -> Option<Seq<char>> {
    if Some(profile.id) != skip_profile && profile.socks_port == Some(port) {
        Some(quoted("the SOCKS5 port of profile \""@, profile.name, "\""@))
    } else if Some(profile.id) != skip_profile && profile.http_port == Some(port) {
        Some(quoted("the HTTP port of profile \""@, profile.name, "\""@))
    } else {
        forward_owner(profile.forwards, profile.name, port, skip_forward)
    }
}

/// How the first use of `port` among the profiles is described.
pub open spec fn owner_of_port(
    profiles: Seq<ProfileView>,
    port: u16,
    skip_profile: Option<Seq<char>>,
    skip_forward: Option<Seq<char>>,
) -> Option<Seq<char>>
    decreases profiles.len(),
{
    if profiles.len() == 0 {
        None
    } else {
        match profile_owner(profiles[0], port, skip_profile, skip_forward) {
            Some(owner) => Some(owner),
            None => owner_of_port(profiles.drop_first(), port, skip_profile, skip_forward),
        }
    }
}

/// Whether a profile uses `port`, as a proxy port or for a forward.
pub open spec fn uses_port(
    profile: ProfileView,
    port: u16,
    skip_profile: Option<Seq<char>>,
    skip_forward: Option<Seq<char>>,
) -> bool {
    ||| Some(profile.id) != skip_profile && (profile.socks_port == Some(port) || profile.http_port
        == Some(port))
    ||| exists|i: int|
        0 <= i < profile.forwards.len() && #[trigger] profile.forwards[i].local_port == port && Some(
            profile.forwards[i].id,
        ) != skip_forward
}

fn find_forward_owner(
    forwards: &Vec<PortForward>,
    profile: &str,
    port: u16,
    skip: Option<&str>,
) -> (r: Option<String>)
    ensures
        opt_string(r) == forward_owner(forward_views(forwards@), profile@, port, opt_str(skip)),
{
    let ghost all = forward_views(forwards@);
    assert(all.skip(0) == all);
    let mut i: usize = 0;
    while i < forwards.len()
        invariant
            i <= forwards.len(),
            all == forward_views(forwards@),
            forward_owner(all, profile@, port, opt_str(skip)) == forward_owner(
                all.skip(i as int),
                profile@,
                port,
                opt_str(skip),
            ),
        decreases forwards.len() - i,
    {
        let f = &forwards[i];
        assert(all.skip(i as int)[0] == f@);
        if !is_same_id(f.id.as_str(), skip) && f.local_port == port {
            let shown = f.display_name();
            let mut text = quote("forward \"", shown.as_str(), "\" in profile \"");
            text.append(quote("", profile, "\"").as_str());
            proof {
                reveal_strlit("");
                assert(""@ == Seq::<char>::empty());
            }
            return Some(text);
        }
        assert(all.skip(i as int).drop_first() == all.skip(i + 1));
        i += 1;
    }
    None
}

/// Describes what already uses a local port, across all profiles. `exclude_profile` leaves out
/// the proxy ports of that profile, which its own form edits; `exclude_forward` leaves out the
/// forward that is being edited.
pub fn port_owner(
    profiles: &[Profile],
    port: u16,
    exclude_profile: Option<&str>,
    exclude_forward: Option<&str>,
) -> (r: Option<String>)
    ensures
        opt_string(r) == owner_of_port(
            profile_views(profiles@),
            port,
            opt_str(exclude_profile),
            opt_str(exclude_forward),
        ),
{
    let ghost all = profile_views(profiles@);
    assert(all.skip(0) == all);
    let mut i: usize = 0;
    while i < profiles.len()
        invariant
            i <= profiles.len(),
            all == profile_views(profiles@),
            owner_of_port(all, port, opt_str(exclude_profile), opt_str(exclude_forward))
                == owner_of_port(
                all.skip(i as int),
                port,
                opt_str(exclude_profile),
                opt_str(exclude_forward),
            ),
        decreases profiles.len() - i,
    {
        let p = &profiles[i];
        assert(all.skip(i as int)[0] == p@);
        assert(all.skip(i as int).drop_first() == all.skip(i + 1));
        if !is_same_id(p.id.as_str(), exclude_profile) {
            if p.socks_port == Some(port) {
                return Some(quote("the SOCKS5 port of profile \"", p.name.as_str(), "\""));
            }
            if p.http_port == Some(port) {
                return Some(quote("the HTTP port of profile \"", p.name.as_str(), "\""));
            }
        }
        let owner = find_forward_owner(&p.forwards, p.name.as_str(), port, exclude_forward);
        if owner.is_some() {
            return owner;
        }
        i += 1;
    }
    None
}

proof fn lemma_forward_owner_iff(
    forwards: Seq<PortForwardView>,
    profile: Seq<char>,
    port: u16,
    skip: Option<Seq<char>>,
)
    ensures
        forward_owner(forwards, profile, port, skip) is Some <==> exists|i: int|
            0 <= i < forwards.len() && #[trigger] forwards[i].local_port == port && Some(
                forwards[i].id,
            ) != skip,
    decreases forwards.len(),
{
    if forwards.len() > 0 {
        let rest = forwards.drop_first();
        lemma_forward_owner_iff(rest, profile, port, skip);
        assert(forall|i: int| 0 <= i < rest.len() ==> #[trigger] rest[i] == forwards[i + 1]);
        assert(forall|i: int|
            0 < i < forwards.len() ==> #[trigger] forwards[i] == rest[i - 1]);
        if exists|i: int|
            0 <= i < rest.len() && #[trigger] rest[i].local_port == port && Some(rest[i].id)
                != skip {
            let i = choose|i: int|
                0 <= i < rest.len() && #[trigger] rest[i].local_port == port && Some(rest[i].id)
                    != skip;
            assert(forwards[i + 1].local_port == port);
        }
    }
}

/// A port has an owner if and only if some profile uses it.
pub proof fn law_port_owner_iff_used(
    profiles: Seq<ProfileView>,
    port: u16,
    skip_profile: Option<Seq<char>>,
    skip_forward: Option<Seq<char>>,
)
    ensures
        owner_of_port(profiles, port, skip_profile, skip_forward) is Some <==> exists|i: int|
            0 <= i < profiles.len() && uses_port(
                #[trigger] profiles[i],
                port,
                skip_profile,
                skip_forward,
            ),
    decreases profiles.len(),
{
    if profiles.len() > 0 {
        let rest = profiles.drop_first();
        let p = profiles[0];
        law_port_owner_iff_used(rest, port, skip_profile, skip_forward);
        lemma_forward_owner_iff(p.forwards, p.name, port, skip_forward);
        assert(profile_owner(p, port, skip_profile, skip_forward) is Some <==> uses_port(
            p,
            port,
            skip_profile,
            skip_forward,
        ));
        assert(forall|i: int| 0 <= i < rest.len() ==> #[trigger] rest[i] == profiles[i + 1]);
        assert(forall|i: int|
            0 < i < profiles.len() ==> #[trigger] profiles[i] == rest[i - 1]);
        if exists|i: int|
            0 <= i < rest.len() && uses_port(#[trigger] rest[i], port, skip_profile, skip_forward) {
            let i = choose|i: int|
                0 <= i < rest.len() && uses_port(
                    #[trigger] rest[i],
                    port,
                    skip_profile,
                    skip_forward,
                );
            assert(uses_port(profiles[i + 1], port, skip_profile, skip_forward));
        }
    }
}

/// The first port from `port` upward that no profile uses, or the highest port where all of them
/// are in use.
pub open spec fn free_port_from(profiles: Seq<ProfileView>, port: u16) -> u16
    decreases u16::MAX - port,
{
    if port < u16::MAX && owner_of_port(profiles, port, None, None) is Some {
        free_port_from(profiles, (port + 1) as u16)
    } else {
        port
    }
}

/// The first port from the default SOCKS5 port upward that no profile uses, or the highest port
/// where all of them are in use.
pub fn next_free_port(profiles: &[Profile]) -> (r: u16)
    ensures
        r == free_port_from(profile_views(profiles@), DEFAULT_SOCKS_PORT),
{
    let mut port: u16 = DEFAULT_SOCKS_PORT;
    while port < u16::MAX && port_owner(profiles, port, None, None).is_some()
        invariant
            free_port_from(profile_views(profiles@), DEFAULT_SOCKS_PORT) == free_port_from(
                profile_views(profiles@),
                port,
            ),
        decreases u16::MAX - port,
    {
        port += 1;
    }
    port
}

/// The suggested port is free unless every port from `port` upward is in use, and every port that
/// was passed over is in use.
pub proof fn law_free_port(profiles: Seq<ProfileView>, port: u16)
    ensures
        free_port_from(profiles, port) >= port,
        owner_of_port(profiles, free_port_from(profiles, port), None, None) is None
            || free_port_from(profiles, port) == u16::MAX,
        forall|p: u16|
            port <= p < free_port_from(profiles, port) ==> #[trigger] owner_of_port(
                profiles,
                p,
                None,
                None,
            ) is Some,
    decreases u16::MAX - port,
{
    if port < u16::MAX && owner_of_port(profiles, port, None, None) is Some {
        law_free_port(profiles, (port + 1) as u16);
    }
}

} // verus!
