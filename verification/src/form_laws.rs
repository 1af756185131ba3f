//! What the forms promise of the lists that their results are saved to.

use vstd::prelude::*;

use crate::config::{AuthKeyView, ProfileView};
use crate::forms::{profile_name_taken, profile_with_id, server_user, ProfileFormView};
use crate::forward_form::ForwardFormView;
use crate::forwards::PortForwardView;
use crate::key_form::{key_name_taken, public_key_holder, KeyFormView};
use crate::merge::profiles_ok;
use crate::ports::{law_port_owner_iff_used, owner_of_port, uses_port};
use crate::records::{law_position, position, saved, HasId};
use crate::roster::valid_name;
use crate::store::keys_ok;
use crate::text::{is_white_space, join, occurs, occurs_at, single_spaced, words};

verus! {

/// Words that are not empty and hold no white space.
spec fn clean_words(ws: Seq<Seq<char>>) -> bool {
    forall|i: int| 0 <= i < ws.len() ==> #[trigger] clean_word(ws[i])
}

spec fn clean_word(w: Seq<char>) -> bool {
    w.len() > 0 && forall|k: int| 0 <= k < w.len() ==> !is_white_space(#[trigger] w[k])
}

proof fn lemma_words_are_clean(s: Seq<char>)
    ensures
        clean_words(words(s)),
        s.len() > 0 && !is_white_space(s.last()) ==> words(s).len() > 0,
    decreases s.len(),
{
    if s.len() > 0 {
        let init = s.drop_last();
        lemma_words_are_clean(init);
        let before = words(init);
        let after = words(s);
        if !is_white_space(s.last()) {
            assert forall|i: int| 0 <= i < after.len() implies #[trigger] clean_word(after[i]) by {
                if i < after.len() - 1 {
                    assert(after[i] == before[i]);
                    assert(clean_word(before[i]));
                } else if init.len() > 0 && !is_white_space(init.last()) {
                    assert(clean_word(before[before.len() - 1]));
                }
            }
        }
    }
}

/// Whether `r` has words separated by single spaces, and nothing else.
spec fn spaced(r: Seq<char>) -> bool {
    &&& r.len() > 0
    &&& !is_white_space(r[0])
    &&& !is_white_space(r.last())
    &&& forall|i: int| 0 <= i < r.len() && is_white_space(#[trigger] r[i]) ==> r[i] == ' '
    &&& forall|i: int, j: int|
        0 <= i < r.len() && j == i + 1 && j < r.len() ==> !(#[trigger] r[i] == ' '
            && #[trigger] r[j] == ' ')
}

proof fn lemma_join_is_spaced(ws: Seq<Seq<char>>)
    requires
        clean_words(ws),
        ws.len() > 0,
    ensures
        spaced(join(ws, seq![' '])),
    decreases ws.len(),
{
    assert(clean_word(ws[ws.len() - 1]));
    if ws.len() > 1 {
        let init = ws.drop_last();
        assert forall|i: int| 0 <= i < init.len() implies #[trigger] clean_word(init[i]) by {
            assert(clean_word(ws[i]));
        }
        lemma_join_is_spaced(init);
        let a = join(init, seq![' ']);
        let r = join(ws, seq![' ']);
        let w = ws.last();
        assert forall|i: int| 0 <= i < r.len() implies #[trigger] r[i] == if i < a.len() {
            a[i]
        } else if i == a.len() {
            ' '
        } else {
            w[i - a.len() - 1]
        } by {}
    }
}

/// A name that was brought into the stored shape and is not too long is well formed.
pub proof fn law_normalized_name_is_valid(s: Seq<char>)
    requires
        0 < single_spaced(s).len() <= 64,
    ensures
        valid_name(single_spaced(s)),
{
    let r = single_spaced(s);
    lemma_words_are_clean(s);
    assert(words(s).len() > 0);
    lemma_join_is_spaced(words(s));
    reveal_strlit("  ");
    if occurs("  "@, r) {
        let i = choose|i: int| #[trigger] occurs_at("  "@, r, i);
        assert(r.subrange(i, i + 2)[0] == ' ' && r.subrange(i, i + 2)[1] == ' ');
        assert(r[i] == ' ' && r[i + 1] == ' ');
    }
}

proof fn lemma_no_server_user(
    profiles: Seq<ProfileView>,
    server: Seq<char>,
    own: Option<Seq<char>>,
)
    requires
        server_user(profiles, server, own) is None,
    ensures
        forall|i: int|
            0 <= i < profiles.len() && (#[trigger] profiles[i]).server_node_id == server ==> Some(
                profiles[i].id,
            ) == own,
    decreases profiles.len(),
{
    if profiles.len() > 0 {
        let rest = profiles.drop_first();
        lemma_no_server_user(rest, server, own);
        assert forall|i: int|
            0 <= i < profiles.len() && (#[trigger] profiles[i]).server_node_id
                == server implies Some(profiles[i].id) == own by {
            if i > 0 {
                assert(rest[i - 1].server_node_id == server);
            }
        }
    }
}

/// Saving what the profile form accepts keeps the rules of the list: well-formed names, and no
/// two profiles with the same id, name or server.
pub proof fn law_saving_a_profile_keeps_rules(
    form: ProfileFormView,
    profiles: Seq<ProfileView>,
    keys: Seq<AuthKeyView>,
    fresh: Seq<char>,
    profile: ProfileView,
)
    requires
        profiles_ok(profiles),
        form.checked(profiles, keys, fresh) == Ok::<ProfileView, Seq<char>>(profile),
    ensures
        profiles_ok(saved(profiles, profile)),
{
    law_normalized_name_is_valid(form.name);
    lemma_no_server_user(profiles, profile.server_node_id, form.editing_id);
    law_position(profiles, profile.id);
    let r = saved(profiles, profile);
    assert forall|i: int|
        0 <= i < profiles.len() && (#[trigger] profiles[i]).id != profile.id implies profiles[i].name
        != profile.name && profiles[i].server_node_id != profile.server_node_id by {
        if profiles[i].name == profile.name {
            assert(profile_name_taken(profiles, profile.name, form.editing_id));
        }
    }
    match position(profiles, profile.id) {
        None => {
            assert forall|i: int, j: int| 0 <= i < j < r.len() implies (#[trigger] r[i]).id != (
            #[trigger] r[j]).id && r[i].name != r[j].name && r[i].server_node_id
                != r[j].server_node_id by {
                assert(profiles[i].record_id() != profile.id);
                if j < profiles.len() {
                    assert(profiles[i].id != profiles[j].id);
                }
            }
        },
        Some(k) => {
            assert forall|i: int, j: int| 0 <= i < j < r.len() implies (#[trigger] r[i]).id != (
            #[trigger] r[j]).id && r[i].name != r[j].name && r[i].server_node_id
                != r[j].server_node_id by {
                assert(profiles[i].id != profiles[j].id);
            }
        },
    }
}

/// The local port that a profile uses in one place: its SOCKS5 port at `-2`, its HTTP port at
/// `-1` and those of its forwards from `0` on.
pub open spec fn port_at(profile: ProfileView, place: int) -> Option<u16> {
    if place == -2 {
        profile.socks_port
    } else if place == -1 {
        profile.http_port
    } else if 0 <= place < profile.forwards.len() {
        Some(profile.forwards[place].local_port)
    } else {
        None
    }
}

/// Whether no local port is used in two places.
pub open spec fn ports_apart(profiles: Seq<ProfileView>) -> bool {
    forall|i: int, k: int, j: int, l: int|
        0 <= i < profiles.len() && 0 <= j < profiles.len() && (i != j || k != l) && port_at(
            profiles[i],
            k,
        ) is Some ==> #[trigger] port_at(profiles[i], k) != #[trigger] port_at(profiles[j], l)
}

/// Whether no local port of a proxy is used in another place.
pub open spec fn proxies_apart(profiles: Seq<ProfileView>) -> bool {
    forall|i: int, k: int, j: int, l: int|
        0 <= i < profiles.len() && 0 <= j < profiles.len() && k < 0 && (i != j || k != l)
            && port_at(profiles[i], k) is Some ==> #[trigger] port_at(profiles[i], k)
            != #[trigger] port_at(profiles[j], l)
}

/// A port without an owner is used in no place that was not left out.
proof fn lemma_unowned_port(
    profiles: Seq<ProfileView>,
    port: u16,
    skip_profile: Option<Seq<char>>,
    skip_forward: Option<Seq<char>>,
    j: int,
    l: int,
)
    requires
        owner_of_port(profiles, port, skip_profile, skip_forward) is None,
        0 <= j < profiles.len(),
    ensures
        l < 0 && Some(profiles[j].id) != skip_profile ==> port_at(profiles[j], l) != Some(port),
        0 <= l < profiles[j].forwards.len() && Some(profiles[j].forwards[l].id) != skip_forward
            ==> port_at(profiles[j], l) != Some(port),
{
    law_port_owner_iff_used(profiles, port, skip_profile, skip_forward);
    assert(!uses_port(profiles[j], port, skip_profile, skip_forward));
    if 0 <= l < profiles[j].forwards.len() {
        let f = profiles[j].forwards[l];
    }
}

/// Saving what the profile form accepts keeps all local ports apart, since profiles can run at
/// the same time. The ports of the proxies stay apart from all others even where two forwards
/// share one.
pub proof fn law_saving_a_profile_keeps_ports_apart(
    form: ProfileFormView,
    profiles: Seq<ProfileView>,
    keys: Seq<AuthKeyView>,
    fresh: Seq<char>,
    profile: ProfileView,
)
    requires
        profiles_ok(profiles),
        form.checked(profiles, keys, fresh) == Ok::<ProfileView, Seq<char>>(profile),
    ensures
        proxies_apart(profiles) ==> proxies_apart(saved(profiles, profile)),
        ports_apart(profiles) ==> ports_apart(saved(profiles, profile)),
{
    law_position(profiles, profile.id);
    let r = saved(profiles, profile);
    let pos: int = match position(profiles, profile.id) {
        Some(k) => k,
        None => profiles.len() as int,
    };
    if pos == profiles.len() {
        assert(forall|j: int|
            0 <= j < profiles.len() ==> (#[trigger] profiles[j]).record_id() != profile.id);
        assert(forall|j: int| 0 <= j < profiles.len() ==> (#[trigger] profiles[j]).id != profile.id);
    }
    lemma_profile_at(profiles, profile.id);
    // The forwards of the saved profile are those that it had, or none.
    assert(profile.forwards.len() > 0 ==> pos < profiles.len() && profile.forwards
        == profiles[pos].forwards) by {
        if profile.forwards.len() > 0 {
            assert(form.editing_id == Some(profile.id));
        }
    }
    // The proxy ports of the saved profile clash with nothing that stays.
    assert forall|k: int, j: int, l: int|
        k < 0 && 0 <= j < r.len() && (j != pos || k != l) && port_at(r[pos], k)
            is Some implies #[trigger] port_at(r[pos], k) != #[trigger] port_at(r[j], l) by {
        let port = port_at(r[pos], k).unwrap();
        assert(owner_of_port(profiles, port, form.editing_id, None) is None);
        if j != pos {
            assert(r[j] == profiles[j]);
            assert(Some(profiles[j].id) != form.editing_id) by {
                if pos < profiles.len() {
                    assert(profiles[j].id != profiles[pos].id);
                }
            }
            lemma_unowned_port(profiles, port, form.editing_id, None, j, l);
        } else if l >= 0 && profile.forwards.len() > 0 {
            lemma_unowned_port(profiles, port, form.editing_id, None, pos, l);
        }
    }
    // Every other place holds what it held, or nothing.
    assert forall|i: int, k: int|
        0 <= i < r.len() && !(i == pos && k < 0) && (#[trigger] port_at(r[i], k)) is Some implies i
        < profiles.len() && port_at(r[i], k) == port_at(profiles[i], k) by {}
    if proxies_apart(profiles) {
        assert forall|i: int, k: int, j: int, l: int|
            0 <= i < r.len() && 0 <= j < r.len() && k < 0 && (i != j || k != l) && port_at(r[i], k)
                is Some implies #[trigger] port_at(r[i], k) != #[trigger] port_at(r[j], l) by {
            if i == pos {
            } else if j == pos && l < 0 {
                if port_at(r[j], l) is Some {
                    assert(port_at(r[pos], l) != port_at(r[i], k));
                }
            } else if port_at(r[j], l) is Some {
                assert(port_at(profiles[i], k) != port_at(profiles[j], l));
            }
        }
    }
    if ports_apart(profiles) {
        assert forall|i: int, k: int, j: int, l: int|
            0 <= i < r.len() && 0 <= j < r.len() && (i != j || k != l) && port_at(r[i], k)
                is Some implies #[trigger] port_at(r[i], k) != #[trigger] port_at(r[j], l) by {
            if i == pos && k < 0 {
            } else if j == pos && l < 0 {
                if port_at(r[j], l) is Some {
                    assert(port_at(r[pos], l) != port_at(r[i], k));
                }
            } else if port_at(r[j], l) is Some {
                assert(port_at(profiles[i], k) != port_at(profiles[j], l));
            }
        }
    }
}

/// The first profile with an id is the one at its place.
pub proof fn lemma_profile_at(profiles: Seq<ProfileView>, id: Seq<char>)
    ensures
        match profile_with_id(profiles, id) {
            Some(p) => exists|k: int|
                0 <= k < profiles.len() && #[trigger] profiles[k] == p && p.id == id && (forall|
                    j: int,
                |
                    0 <= j < k ==> (#[trigger] profiles[j]).id != id),
            None => forall|k: int| 0 <= k < profiles.len() ==> (#[trigger] profiles[k]).id != id,
        },
    decreases profiles.len(),
{
    if profiles.len() > 0 {
        let rest = profiles.drop_first();
        assert(forall|k: int| 0 < k < profiles.len() ==> #[trigger] profiles[k] == rest[k - 1]);
        if profiles[0].id != id {
            lemma_profile_at(rest, id);
            if let Some(p) = profile_with_id(rest, id) {
                let k = choose|k: int|
                    0 <= k < rest.len() && #[trigger] rest[k] == p && p.id == id && (forall|
                        j: int,
                    |
                        0 <= j < k ==> (#[trigger] rest[j]).id != id);
                assert(profiles[k + 1] == p);
            }
        } else {
            assert(profiles[0] == profile_with_id(profiles, id).unwrap());
        }
    }
}

proof fn lemma_no_public_key_holder(
    keys: Seq<AuthKeyView>,
    public_key: Seq<char>,
    own: Option<Seq<char>>,
)
    requires
        public_key_holder(keys, public_key, own) is None,
    ensures
        forall|i: int|
            0 <= i < keys.len() && (#[trigger] keys[i]).public_key == public_key ==> Some(
                keys[i].id,
            ) == own,
    decreases keys.len(),
{
    if keys.len() > 0 {
        let rest = keys.drop_first();
        lemma_no_public_key_holder(rest, public_key, own);
        assert forall|i: int|
            0 <= i < keys.len() && (#[trigger] keys[i]).public_key == public_key implies Some(
            keys[i].id,
        ) == own by {
            if i > 0 {
                assert(rest[i - 1].public_key == public_key);
            }
        }
    }
}

/// Saving what the key form accepts keeps the rules of the list: well-formed names, no empty id,
/// and no two keys with the same id, name or public half.
pub proof fn law_saving_a_key_keeps_rules(
    form: KeyFormView,
    keys: Seq<AuthKeyView>,
    parsed: Result<Seq<char>, Seq<char>>,
    fresh: Seq<char>,
    key: AuthKeyView,
)
    requires
        keys_ok(keys),
        form.checked(keys, parsed, fresh) == Ok::<AuthKeyView, Seq<char>>(key),
        key.id.len() > 0,
    ensures
        keys_ok(saved(keys, key)),
{
    law_normalized_name_is_valid(form.name);
    lemma_no_public_key_holder(keys, key.public_key, form.editing_id);
    assert forall|i: int| 0 <= i < keys.len() && (#[trigger] keys[i]).id != key.id implies keys[i].name
        != key.name && keys[i].public_key != key.public_key by {
        if keys[i].name == key.name {
            assert(key_name_taken(keys, key.name, form.editing_id));
        }
    }
    lemma_saved_keys(keys, key);
}

/// A key that shares neither name nor public half with another keeps the rules when it is saved.
pub proof fn lemma_saved_keys(keys: Seq<AuthKeyView>, key: AuthKeyView)
    requires
        keys_ok(keys),
        valid_name(key.name),
        key.id.len() > 0,
        forall|i: int|
            0 <= i < keys.len() && (#[trigger] keys[i]).id != key.id ==> keys[i].name != key.name
                && keys[i].public_key != key.public_key,
    ensures
        keys_ok(saved(keys, key)),
{
    let r = saved(keys, key);
    law_position(keys, key.id);
    match position(keys, key.id) {
        None => {
            assert forall|i: int, j: int| 0 <= i < j < r.len() implies (#[trigger] r[i]).id != (
            #[trigger] r[j]).id && r[i].name != r[j].name && r[i].public_key != r[j].public_key by {
                assert(keys[i].record_id() != key.id);
                if j < keys.len() {
                    assert(keys[i].id != keys[j].id);
                }
            }
        },
        Some(k) => {
            assert forall|i: int, j: int| 0 <= i < j < r.len() implies (#[trigger] r[i]).id != (
            #[trigger] r[j]).id && r[i].name != r[j].name && r[i].public_key != r[j].public_key by {
                assert(keys[i].id != keys[j].id);
            }
        },
    }
    assert forall|i: int| 0 <= i < r.len() implies valid_name((#[trigger] r[i]).name)
        && r[i].id.len() > 0 by {
        if i < keys.len() {
            assert(valid_name(keys[i].name));
        }
    }
}

/// The profiles with a forward saved in the profile at `pos`.
pub open spec fn with_forward(profiles: Seq<ProfileView>, pos: int, forward: PortForwardView) -> Seq<
    ProfileView,
> {
    profiles.update(
        pos,
        ProfileView { forwards: saved(profiles[pos].forwards, forward), ..profiles[pos] },
    )
}

/// Whether a forward with the given id is, if anywhere, at the place in the profile at `pos` where
/// it is saved.
pub open spec fn belongs_to(profiles: Seq<ProfileView>, pos: int, id: Seq<char>) -> bool {
    forall|j: int, l: int|
        0 <= j < profiles.len() && 0 <= l < profiles[j].forwards.len() && (
        #[trigger] profiles[j].forwards[l]).id == id ==> j == pos && position(
            profiles[pos].forwards,
            id,
        ) == Some(l)
}

/// Saving what the forward form accepts keeps all local ports apart. A forward that is edited must
/// be in the profile that it is saved in, and one that is added needs an id that is not in use.
pub proof fn law_saving_a_forward_keeps_ports_apart(
    form: ForwardFormView,
    profiles: Seq<ProfileView>,
    fresh: Seq<char>,
    forward: PortForwardView,
    pos: int,
)
    requires
        ports_apart(profiles),
        0 <= pos < profiles.len(),
        form.checked(profiles, fresh) == Ok::<PortForwardView, Seq<char>>(forward),
        belongs_to(profiles, pos, forward.id),
    ensures
        ports_apart(with_forward(profiles, pos, forward)),
{
    let r = with_forward(profiles, pos, forward);
    let old_forwards = profiles[pos].forwards;
    law_position(old_forwards, forward.id);
    let at: int = match position(old_forwards, forward.id) {
        Some(k) => k,
        None => old_forwards.len() as int,
    };
    assert(owner_of_port(profiles, forward.local_port, None, form.editing_id) is None);
    assert(port_at(r[pos], at) == Some(forward.local_port));
    // Every other place holds what it held.
    assert forall|j: int, l: int|
        0 <= j < r.len() && !(j == pos && l == at) implies #[trigger] port_at(r[j], l) == port_at(
        profiles[j],
        l,
    ) && port_at(r[j], l) != Some(forward.local_port) by {
        lemma_unowned_port(profiles, forward.local_port, None, form.editing_id, j, l);
        if 0 <= l < profiles[j].forwards.len() {
            if Some(profiles[j].forwards[l].id) == form.editing_id {
                assert(profiles[j].forwards[l].id == forward.id);
            }
        }
    }
    assert forall|i: int, k: int, j: int, l: int|
        0 <= i < r.len() && 0 <= j < r.len() && (i != j || k != l) && port_at(r[i], k)
            is Some implies #[trigger] port_at(r[i], k) != #[trigger] port_at(r[j], l) by {
        if i == pos && k == at {
        } else if j == pos && l == at {
        } else {
            assert(port_at(r[i], k) == port_at(profiles[i], k));
            assert(port_at(r[j], l) == port_at(profiles[j], l));
        }
    }
}

} // verus!
