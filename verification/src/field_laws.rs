//! What the forms promise of the fields that are filled in.

use vstd::prelude::*;
use vstd::string::*;

use crate::config::ProfileView;
use crate::edit_laws::is_tidy;
use crate::form_laws::port_at;
use crate::forward_form::ForwardFormView;
use crate::forwards::{has_no_empty_label, port_field, PortForwardView};
use crate::naming::law_decimal_reads_back;
use crate::ports::{
    forward_owner, law_port_owner_iff_used, owner_of_port, profile_owner, uses_port,
};
use crate::text::{decimal, is_digit, occurs, occurs_at, trimmed, u16_of_text};
use crate::text_laws::{is_blank, law_trimming_takes_white_space_away};

verus! {

/// Whether a local port is used in some place, apart from the proxies of the profile `profile` and
/// from the forward `forward`.
pub open spec fn is_used_port(
    profiles: Seq<ProfileView>,
    port: u16,
    profile: Option<Seq<char>>,
    forward: Option<Seq<char>>,
) -> bool {
    exists|i: int, k: int|
        0 <= i < profiles.len() && #[trigger] port_at(profiles[i], k) == Some(port) && (k < 0
            ==> Some(profiles[i].id) != profile) && (k >= 0 ==> Some(profiles[i].forwards[k].id)
            != forward)
}

/// A port has an owner exactly if it is used.
pub proof fn law_used_ports_have_owners(
    profiles: Seq<ProfileView>,
    port: u16,
    profile: Option<Seq<char>>,
    forward: Option<Seq<char>>,
)
    ensures
        owner_of_port(profiles, port, profile, forward) is Some <==> is_used_port(
            profiles,
            port,
            profile,
            forward,
        ),
{
    law_port_owner_iff_used(profiles, port, profile, forward);
    if is_used_port(profiles, port, profile, forward) {
        let (i, k) = choose|i: int, k: int|
            0 <= i < profiles.len() && #[trigger] port_at(profiles[i], k) == Some(port) && (k < 0
                ==> Some(profiles[i].id) != profile) && (k >= 0 ==> Some(
                profiles[i].forwards[k].id,
            ) != forward);
        if k >= 0 {
            assert(profiles[i].forwards[k].local_port == port);
        }
        assert(uses_port(profiles[i], port, profile, forward));
    }
    if owner_of_port(profiles, port, profile, forward) is Some {
        let i = choose|i: int|
            0 <= i < profiles.len() && uses_port(#[trigger] profiles[i], port, profile, forward);
        if Some(profiles[i].id) != profile && profiles[i].socks_port == Some(port) {
            assert(port_at(profiles[i], -2) == Some(port));
        } else if Some(profiles[i].id) != profile && profiles[i].http_port == Some(port) {
            assert(port_at(profiles[i], -1) == Some(port));
        } else {
            let k = choose|k: int|
                0 <= k < profiles[i].forwards.len() && #[trigger] profiles[i].forwards[k].local_port
                    == port && Some(profiles[i].forwards[k].id) != forward;
            assert(port_at(profiles[i], k) == Some(port));
        }
    }
}

/// Whether a field reads as a port: a number from 1 to 65535, with white space around it ignored.
pub open spec fn reads_as_port(text: Seq<char>, port: u16) -> bool {
    port != 0 && u16_of_text(trimmed(text)) == Some(port)
}

/// A field in which the numeral of a port stands, with white space around it, reads as that port
/// and as no other.
pub proof fn law_port_numeral_reads_as_port(
    before: Seq<char>,
    port: u16,
    after: Seq<char>,
    other: u16,
)
    requires
        port != 0,
        is_blank(before),
        is_blank(after),
    ensures
        reads_as_port(before + decimal(port as nat) + after, port),
        reads_as_port(before + decimal(port as nat) + after, other) ==> other == port,
{
    let text = decimal(port as nat);
    lemma_numeral(port);
    law_trimming_takes_white_space_away(before, text, after);
}

/// The numeral of a port needs no trimming and reads as the port.
pub proof fn lemma_numeral(port: u16)
    requires
        port != 0,
    ensures
        is_tidy(decimal(port as nat)),
        trimmed(decimal(port as nat)) == decimal(port as nat),
        u16_of_text(decimal(port as nat)) == Some(port),
{
    let text = decimal(port as nat);
    law_decimal_reads_back(port as nat);
    assert(is_digit(text[0]));
    assert(is_digit(text[text.len() - 1]));
    law_trimming_takes_white_space_away(Seq::empty(), text, Seq::empty());
    assert(Seq::<char>::empty() + text + Seq::<char>::empty() == text);
    assert(u16_of_text(text) == Some(port));
}

/// Whether a remote host can be used: it is not empty and has no empty label before a dot.
pub open spec fn is_host(s: Seq<char>) -> bool {
    &&& s.len() > 0
    &&& s[0] != '.'
    &&& forall|i: int, j: int|
        0 <= i < s.len() && j == i + 1 && j < s.len() ==> !(#[trigger] s[i] == '.'
            && #[trigger] s[j] == '.')
}

proof fn lemma_host(s: Seq<char>)
    requires
        s.len() > 0,
    ensures
        has_no_empty_label(s) <==> is_host(s),
{
    reveal_strlit("..");
    if occurs(".."@, s) {
        let i = choose|i: int| #[trigger] occurs_at(".."@, s, i);
        let part = s.subrange(i, i + 2);
        assert(part[0] == '.' && part[1] == '.');
        let j = i + 1;
        assert(s[i] == '.' && s[j] == '.');
    }
    if !is_host(s) && s[0] != '.' {
        let (i, j) = choose|i: int, j: int|
            0 <= i < s.len() && j == i + 1 && j < s.len() && (#[trigger] s[i] == '.'
                && #[trigger] s[j] == '.');
        assert(s.subrange(i, i + 2) == ".."@);
        assert(occurs_at(".."@, s, i));
    }
}

/// The forward form is accepted exactly if each of its fields can be used and the local port is
/// not in use, apart from the forward that is being edited. The forward then has the ports that
/// the two fields read as, the trimmed label and host, and the form's switch. It keeps its id, or
/// gets the new one.
pub proof fn law_accepted_forward_has_the_fields(
    form: ForwardFormView,
    profiles: Seq<ProfileView>,
    fresh: Seq<char>,
    local: u16,
    remote: u16,
)
    requires
        reads_as_port(form.local_port, local),
        reads_as_port(form.remote_port, remote),
    ensures
        form.checked(profiles, fresh) is Ok <==> {
            &&& trimmed(form.label).len() <= 64
            &&& is_host(trimmed(form.remote_host))
            &&& !is_used_port(profiles, local, None, form.editing_id)
        },
        form.checked(profiles, fresh) matches Ok(f) ==> {
            &&& f.local_port == local
            &&& f.remote_port == remote
            &&& f.label == trimmed(form.label)
            &&& f.remote_host == trimmed(form.remote_host)
            &&& f.enabled == form.enabled
            &&& form.editing_id is None ==> f.id == fresh
            &&& form.editing_id is Some ==> f.id == form.editing_id->0
        },
{
    law_used_ports_have_owners(profiles, local, None, form.editing_id);
    if trimmed(form.remote_host).len() > 0 {
        lemma_host(trimmed(form.remote_host));
    }
}

/// A form in which a port field reads as no port is refused.
pub proof fn law_forward_needs_its_ports(
    form: ForwardFormView,
    profiles: Seq<ProfileView>,
    fresh: Seq<char>,
)
    requires
        forall|port: u16| !#[trigger] reads_as_port(form.local_port, port) || forall|port: u16|
            !#[trigger] reads_as_port(form.remote_port, port),
    ensures
        form.checked(profiles, fresh) is Err,
{
    if let Ok(f) = form.checked(profiles, fresh) {
        assert(reads_as_port(form.local_port, f.local_port));
        assert(reads_as_port(form.remote_port, f.remote_port));
    }
}

/// A form in which a forward is written down, with white space around the texts, gives exactly
/// that forward, whether it is added or edited.
pub proof fn law_written_forward_is_read(
    f: PortForwardView,
    editing: bool,
    profiles: Seq<ProfileView>,
    before: Seq<char>,
    after: Seq<char>,
)
    requires
        is_blank(before),
        is_blank(after),
        f.label.len() <= 64,
        f.label.len() > 0 ==> is_tidy(f.label),
        is_tidy(f.remote_host),
        is_host(f.remote_host),
        f.local_port != 0,
        f.remote_port != 0,
        !is_used_port(
            profiles,
            f.local_port,
            None,
            if editing {
                Some(f.id)
            } else {
                None
            },
        ),
    ensures
        (ForwardFormView {
            editing_id: if editing {
                Some(f.id)
            } else {
                None
            },
            label: before + f.label + after,
            local_port: before + decimal(f.local_port as nat) + after,
            remote_host: before + f.remote_host + after,
            remote_port: before + decimal(f.remote_port as nat) + after,
            enabled: f.enabled,
        }).checked(profiles, f.id) == Ok::<PortForwardView, Seq<char>>(f),
{
    let form = ForwardFormView {
        editing_id: if editing {
            Some(f.id)
        } else {
            None
        },
        label: before + f.label + after,
        local_port: before + decimal(f.local_port as nat) + after,
        remote_host: before + f.remote_host + after,
        remote_port: before + decimal(f.remote_port as nat) + after,
        enabled: f.enabled,
    };
    law_trimming_takes_white_space_away(before, f.label, after);
    law_trimming_takes_white_space_away(before, f.remote_host, after);
    law_port_numeral_reads_as_port(before, f.local_port, after, 0);
    law_port_numeral_reads_as_port(before, f.remote_port, after, 0);
    law_accepted_forward_has_the_fields(form, profiles, f.id, f.local_port, f.remote_port);
}

/// The forward form tells the first thing that is wrong, in the order of its fields.
pub proof fn law_forward_form_tells_the_first_fault(
    form: ForwardFormView,
    profiles: Seq<ProfileView>,
    fresh: Seq<char>,
    local: u16,
    remote: u16,
)
    ensures
        ({
            let r = form.checked(profiles, fresh);
            let label_ok = trimmed(form.label).len() <= 64;
            let local_ok = reads_as_port(form.local_port, local);
            let no_local = forall|p: u16| !#[trigger] reads_as_port(form.local_port, p);
            let host = trimmed(form.remote_host);
            let no_remote = forall|p: u16| !#[trigger] reads_as_port(form.remote_port, p);
            &&& !label_ok ==> r == Err::<PortForwardView, Seq<char>>(
                "Label must be 64 characters or fewer"@,
            )
            &&& label_ok && no_local ==> r == Err::<PortForwardView, Seq<char>>(
                "Local port"@ + " must be a number from 1 to 65535"@,
            )
            &&& label_ok && local_ok && host.len() == 0 ==> r == Err::<PortForwardView, Seq<char>>(
                "Remote host is required"@,
            )
            &&& label_ok && local_ok && host.len() > 0 && !is_host(host) ==> r == Err::<
                PortForwardView,
                Seq<char>,
            >("Remote host is not a valid host name or address"@)
            &&& label_ok && local_ok && is_host(host) && no_remote ==> r == Err::<
                PortForwardView,
                Seq<char>,
            >("Remote port"@ + " must be a number from 1 to 65535"@)
            &&& label_ok && local_ok && is_host(host) && reads_as_port(form.remote_port, remote)
                && is_used_port(profiles, local, None, form.editing_id) ==> r is Err && {
                let told = "Local port "@ + decimal(local as nat) + " is already used by "@;
                r->Err_0.len() > told.len() && r->Err_0.take(told.len() as int) == told
            }
        }),
{
    law_used_ports_have_owners(profiles, local, None, form.editing_id);
    if trimmed(form.remote_host).len() > 0 {
        lemma_host(trimmed(form.remote_host));
    }
    if let Ok(p) = port_field(form.local_port, "Local port"@) {
        assert(reads_as_port(form.local_port, p));
    }
    if let Ok(p) = port_field(form.remote_port, "Remote port"@) {
        assert(reads_as_port(form.remote_port, p));
    }
    reveal_strlit("Local port ");
    reveal_strlit("Local port");
    reveal_strlit(" ");
    assert("Local port "@ == "Local port"@ + " "@);
    if let Some(owner) = owner_of_port(profiles, local, None, form.editing_id) {
        lemma_owner_is_told(profiles, local, None, form.editing_id);
        let told = "Local port "@ + decimal(local as nat) + " is already used by "@;
        assert((told + owner).take(told.len() as int) == told);
    }
}

/// Whether a text tells which use of a port a message is about: that of the proxy or the forward
/// at the place `k` of the profile `p`.
pub open spec fn tells_use(text: Seq<char>, p: ProfileView, k: int) -> bool {
    if k == -2 {
        text == "the SOCKS5 port of profile \""@ + p.name + "\""@
    } else if k == -1 {
        text == "the HTTP port of profile \""@ + p.name + "\""@
    } else {
        text == "forward \""@ + p.forwards[k].display_name() + "\" in profile \""@ + p.name + "\""@
    }
}

proof fn lemma_forward_owner(p: ProfileView, from: int, port: u16, forward: Option<Seq<char>>)
    requires
        0 <= from <= p.forwards.len(),
        forward_owner(p.forwards.skip(from), p.name, port, forward) is Some,
    ensures
        exists|k: int|
            0 <= k && #[trigger] port_at(p, k) == Some(port) && Some(p.forwards[k].id) != forward
                && tells_use(
                forward_owner(p.forwards.skip(from), p.name, port, forward)->0,
                p,
                k,
            ),
    decreases p.forwards.len() - from,
{
    let s = p.forwards.skip(from);
    if s.len() > 0 {
        assert(s[0] == p.forwards[from]);
        assert(s.drop_first() == p.forwards.skip(from + 1));
        if Some(s[0].id) != forward && s[0].local_port == port {
            assert(port_at(p, from) == Some(port));
            let told = forward_owner(s, p.name, port, forward)->0;
            assert(told == "forward \""@ + p.forwards[from].display_name() + "\" in profile \""@
                + p.name + "\""@);
        } else {
            lemma_forward_owner(p, from + 1, port, forward);
        }
    }
}

proof fn lemma_owner_is_told(
    profiles: Seq<ProfileView>,
    port: u16,
    profile: Option<Seq<char>>,
    forward: Option<Seq<char>>,
)
    requires
        owner_of_port(profiles, port, profile, forward) is Some,
    ensures
        owner_of_port(profiles, port, profile, forward)->0.len() > 0,
        exists|i: int, k: int|
            0 <= i < profiles.len() && #[trigger] port_at(profiles[i], k) == Some(port) && (k < 0
                ==> Some(profiles[i].id) != profile) && (k >= 0 ==> Some(
                profiles[i].forwards[k].id,
            ) != forward) && tells_use(
                owner_of_port(profiles, port, profile, forward)->0,
                profiles[i],
                k,
            ),
    decreases profiles.len(),
{
    let p = profiles[0];
    let told = owner_of_port(profiles, port, profile, forward)->0;
    reveal_strlit("\"");
    if Some(p.id) != profile && p.socks_port == Some(port) {
        assert(port_at(profiles[0], -2) == Some(port));
        assert(tells_use(told, profiles[0], -2));
    } else if Some(p.id) != profile && p.http_port == Some(port) {
        assert(port_at(profiles[0], -1) == Some(port));
        assert(tells_use(told, profiles[0], -1));
    } else {
        assert(p.forwards.skip(0) == p.forwards);
        if forward_owner(p.forwards, p.name, port, forward) is Some {
            lemma_forward_owner(p, 0, port, forward);
            let k = choose|k: int|
                0 <= k && #[trigger] port_at(p, k) == Some(port) && Some(p.forwards[k].id)
                    != forward && tells_use(told, p, k);
            assert(port_at(profiles[0], k) == Some(port));
        } else {
            let rest = profiles.drop_first();
            lemma_owner_is_told(rest, port, profile, forward);
            let (i, k) = choose|i: int, k: int|
                0 <= i < rest.len() && #[trigger] port_at(rest[i], k) == Some(port) && (k < 0
                    ==> Some(rest[i].id) != profile) && (k >= 0 ==> Some(rest[i].forwards[k].id)
                    != forward) && tells_use(told, rest[i], k);
            assert(port_at(profiles[i + 1], k) == Some(port));
        }
    }
}

/// What a message says of a port that is in use is true: it names a proxy or a forward that uses
/// it, and the profile that has it.
pub proof fn law_port_owner_is_told(
    profiles: Seq<ProfileView>,
    port: u16,
    profile: Option<Seq<char>>,
    forward: Option<Seq<char>>,
)
    requires
        is_used_port(profiles, port, profile, forward),
    ensures
        owner_of_port(profiles, port, profile, forward) is Some,
        exists|i: int, k: int|
            0 <= i < profiles.len() && #[trigger] port_at(profiles[i], k) == Some(port) && (k < 0
                ==> Some(profiles[i].id) != profile) && (k >= 0 ==> Some(
                profiles[i].forwards[k].id,
            ) != forward) && tells_use(
                owner_of_port(profiles, port, profile, forward)->0,
                profiles[i],
                k,
            ),
{
    law_used_ports_have_owners(profiles, port, profile, forward);
    lemma_owner_is_told(profiles, port, profile, forward);
}

/// Of several uses of a port the first is told: that of the first profile that has one, and there
/// the SOCKS5 proxy before the HTTP proxy before the forwards in their order.
pub proof fn law_first_port_user_is_told(
    profiles: Seq<ProfileView>,
    port: u16,
    profile: Option<Seq<char>>,
    forward: Option<Seq<char>>,
    i: int,
    k: int,
)
    requires
        0 <= i < profiles.len(),
        port_at(profiles[i], k) == Some(port),
        k < 0 ==> Some(profiles[i].id) != profile,
        k >= 0 ==> Some(profiles[i].forwards[k].id) != forward,
        forall|j: int, l: int|
            0 <= j < profiles.len() && (j < i || j == i && l < k) && #[trigger] port_at(
                profiles[j],
                l,
            ) == Some(port) ==> (if l < 0 {
                Some(profiles[j].id) == profile
            } else {
                Some(profiles[j].forwards[l].id) == forward
            }),
    ensures
        owner_of_port(profiles, port, profile, forward) is Some,
        tells_use(owner_of_port(profiles, port, profile, forward)->0, profiles[i], k),
    decreases i,
{
    let p = profiles[0];
    assert(p.forwards.skip(0) == p.forwards);
    if i > 0 {
        assert(!is_used_port(seq![p], port, profile, forward)) by {
            if is_used_port(seq![p], port, profile, forward) {
                let (a, b) = choose|a: int, b: int|
                    0 <= a < seq![p].len() && #[trigger] port_at(seq![p][a], b) == Some(port) && (b
                        < 0 ==> Some(seq![p][a].id) != profile) && (b >= 0 ==> Some(
                        seq![p][a].forwards[b].id,
                    ) != forward);
                assert(port_at(profiles[0], b) == Some(port));
            }
        }
        law_used_ports_have_owners(seq![p], port, profile, forward);
        assert(seq![p].drop_first() == Seq::<ProfileView>::empty());
        assert(profile_owner(p, port, profile, forward) is None);
        let rest = profiles.drop_first();
        assert(rest[i - 1] == profiles[i]);
        assert forall|j: int, l: int|
            0 <= j < rest.len() && (j < i - 1 || j == i - 1 && l < k) && #[trigger] port_at(
                rest[j],
                l,
            ) == Some(port) implies (if l < 0 {
            Some(rest[j].id) == profile
        } else {
            Some(rest[j].forwards[l].id) == forward
        }) by {
            assert(port_at(profiles[j + 1], l) == Some(port));
        }
        law_first_port_user_is_told(rest, port, profile, forward, i - 1, k);
    } else {
        assert(port_at(profiles[0], -2) == p.socks_port);
        assert(port_at(profiles[0], -1) == p.http_port);
        if k >= 0 {
            assert forall|l: int| 0 <= l < k && #[trigger] p.forwards[l].local_port
                == port implies Some(p.forwards[l].id) == forward by {
                assert(port_at(profiles[0], l) == Some(port));
            }
            lemma_first_forward_owner(p, 0, port, forward, k);
        }
    }
}

proof fn lemma_first_forward_owner(
    p: ProfileView,
    from: int,
    port: u16,
    forward: Option<Seq<char>>,
    k: int,
)
    requires
        0 <= from <= k < p.forwards.len(),
        p.forwards[k].local_port == port,
        Some(p.forwards[k].id) != forward,
        forall|l: int|
            0 <= l < k && #[trigger] p.forwards[l].local_port == port ==> Some(p.forwards[l].id)
                == forward,
    ensures
        forward_owner(p.forwards.skip(from), p.name, port, forward) is Some,
        tells_use(forward_owner(p.forwards.skip(from), p.name, port, forward)->0, p, k),
    decreases k - from,
{
    let s = p.forwards.skip(from);
    assert(s[0] == p.forwards[from]);
    if from < k {
        assert(s.drop_first() == p.forwards.skip(from + 1));
        lemma_first_forward_owner(p, from + 1, port, forward, k);
    } else {
        let told = forward_owner(s, p.name, port, forward)->0;
        assert(told == "forward \""@ + p.forwards[k].display_name() + "\" in profile \""@ + p.name
            + "\""@);
    }
}

} // verus!
