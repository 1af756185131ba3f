//! What a merge promises of the profiles that are imported.

use vstd::prelude::*;

use crate::config::ProfileView;
use crate::merge::{
    law_merge_keeps_identity, lemma_server_position, merged, merged_one, other_names, profiles_ok,
    server_position, FreshIdsView,
};
use crate::naming::law_free_name_is_free;

verus! {

/// Whether a profile connects where another one does, offers the same proxies and reaches it over
/// the same relays.
pub open spec fn has_settings_of(p: ProfileView, incoming: ProfileView) -> bool {
    &&& p.server_node_id == incoming.server_node_id
    &&& p.socks_port == incoming.socks_port
    &&& p.http_port == incoming.http_port
    &&& p.relay_urls == incoming.relay_urls
}

/// Whether the forwards of a profile are those of another one, each under a new id.
pub open spec fn has_forwards_of(
    p: ProfileView,
    incoming: ProfileView,
    ids: Seq<Seq<char>>,
) -> bool {
    &&& p.forwards.len() == incoming.forwards.len()
    &&& forall|k: int|
        0 <= k < incoming.forwards.len() ==> {
            let (f, g) = (#[trigger] p.forwards[k], incoming.forwards[k]);
            &&& f.id == ids[k]
            &&& f.label == g.label
            &&& f.local_port == g.local_port
            &&& f.remote_host == g.remote_host
            &&& f.remote_port == g.remote_port
            &&& f.enabled == g.enabled
        }
}

/// Whether a profile other than `own` is called `name`.
pub open spec fn other_is_called(
    profiles: Seq<ProfileView>,
    own: Option<Seq<char>>,
    name: Seq<char>,
) -> bool {
    exists|i: int|
        0 <= i < profiles.len() && (#[trigger] profiles[i]).name == name && Some(profiles[i].id)
            != own
}

proof fn lemma_taken(profiles: Seq<ProfileView>, own: Option<Seq<char>>, name: Seq<char>)
    ensures
        other_names(profiles, own).contains(name) <==> other_is_called(
            profiles,
            own,
            name,
        ),
    decreases profiles.len(),
{
    if profiles.len() > 0 {
        let front = profiles.drop_last();
        let last = profiles.len() - 1;
        lemma_taken(front, own, name);
        assert(profiles[last] == profiles.last());
        let before = other_names(front, own);
        let all = other_names(profiles, own);
        if before.contains(name) {
            let k = before.index_of(name);
            assert(all[k] == name);
            let i = choose|i: int|
                0 <= i < front.len() && (#[trigger] front[i]).name == name && Some(front[i].id)
                    != own;
            assert(profiles[i].name == name);
        }
        if Some(profiles[last].id) != own && profiles[last].name == name {
            assert(all[all.len() - 1] == name);
        }
        if other_is_called(profiles, own, name) {
            let i = choose|i: int|
                0 <= i < profiles.len() && (#[trigger] profiles[i]).name == name && Some(
                    profiles[i].id,
                ) != own;
            if i < last {
                assert(front[i].name == name);
            }
        }
        if all.contains(name) && !before.contains(name) {
            let k = all.index_of(name);
            if k < before.len() {
                assert(before[k] == name);
            }
            assert(profiles[last].name == name);
        }
    }
}

/// An import for a server that a profile already connects to gives that profile its settings and
/// its forwards, the latter under new ids. The profile keeps its id, its key and its relay token,
/// and takes the imported name unless another profile has it. No other profile changes.
pub proof fn law_import_replaces_settings(
    profiles: Seq<ProfileView>,
    incoming: ProfileView,
    fresh: FreshIdsView,
    i: int,
)
    requires
        0 <= i < profiles.len(),
        profiles[i].server_node_id == incoming.server_node_id,
        forall|j: int|
            0 <= j < i ==> (#[trigger] profiles[j]).server_node_id != incoming.server_node_id,
    ensures
        ({
            let r = merged_one(profiles, incoming, fresh);
            &&& r.len() == profiles.len()
            &&& has_settings_of(r[i], incoming)
            &&& has_forwards_of(r[i], incoming, fresh.forwards)
            &&& r[i].id == profiles[i].id
            &&& r[i].auth_key_id == profiles[i].auth_key_id
            &&& r[i].relay_auth_token == profiles[i].relay_auth_token
            &&& r[i].name == incoming.name <==> !other_is_called(
                profiles,
                Some(profiles[i].id),
                incoming.name,
            )
            &&& !other_is_called(profiles, Some(profiles[i].id), r[i].name)
            &&& forall|j: int| 0 <= j < r.len() && j != i ==> #[trigger] r[j] == profiles[j]
        }),
{
    lemma_server_position(profiles, incoming.server_node_id, 0);
    lemma_position_is_first(profiles, incoming.server_node_id, 0, i);
    let own = Some(profiles[i].id);
    let taken = other_names(profiles, own);
    law_free_name_is_free(incoming.name, taken);
    lemma_taken(profiles, own, incoming.name);
    lemma_taken(profiles, own, merged_one(profiles, incoming, fresh)[i].name);
}

proof fn lemma_position_is_first(profiles: Seq<ProfileView>, server: Seq<char>, from: int, i: int)
    requires
        0 <= from <= i < profiles.len(),
        profiles[i].server_node_id == server,
        forall|j: int| 0 <= j < i ==> (#[trigger] profiles[j]).server_node_id != server,
    ensures
        server_position(profiles, server, from) == Some(i),
    decreases i - from,
{
    if from < i {
        assert(profiles[from].server_node_id != server);
        lemma_position_is_first(profiles, server, from + 1, i);
    }
}

/// An import for a server that no profile connects to is put behind the others, with its settings
/// and its forwards under new ids, without a key and a relay token, and under its name unless
/// another profile has it. No other profile changes.
pub proof fn law_import_adds_settings(
    profiles: Seq<ProfileView>,
    incoming: ProfileView,
    fresh: FreshIdsView,
)
    requires
        forall|j: int|
            0 <= j < profiles.len() ==> (#[trigger] profiles[j]).server_node_id
                != incoming.server_node_id,
    ensures
        ({
            let r = merged_one(profiles, incoming, fresh);
            let last = profiles.len() as int;
            &&& r.len() == profiles.len() + 1
            &&& has_settings_of(r[last], incoming)
            &&& has_forwards_of(r[last], incoming, fresh.forwards)
            &&& r[last].id == fresh.profile
            &&& r[last].auth_key_id.len() == 0
            &&& r[last].relay_auth_token is None
            &&& r[last].name == incoming.name <==> !other_is_called(profiles, None, incoming.name)
            &&& !other_is_called(profiles, None, r[last].name)
            &&& forall|j: int| 0 <= j < profiles.len() ==> #[trigger] r[j] == profiles[j]
        }),
{
    lemma_server_position(profiles, incoming.server_node_id, 0);
    let taken = other_names(profiles, None);
    law_free_name_is_free(incoming.name, taken);
    lemma_taken(profiles, None, incoming.name);
    lemma_taken(
        profiles,
        None,
        merged_one(profiles, incoming, fresh)[profiles.len() as int].name,
    );
}

/// Whether no two of the imported profiles connect to the same server.
pub open spec fn servers_apart(imported: Seq<ProfileView>) -> bool {
    forall|i: int, j: int|
        0 <= i < j < imported.len() ==> (#[trigger] imported[i]).server_node_id != (
        #[trigger] imported[j]).server_node_id
}

/// Whether the profile at `i` is what the import `incoming` asks for.
pub open spec fn is_imported_at(
    profiles: Seq<ProfileView>,
    i: int,
    incoming: ProfileView,
    ids: Seq<Seq<char>>,
) -> bool {
    &&& 0 <= i < profiles.len()
    &&& has_settings_of(profiles[i], incoming)
    &&& has_forwards_of(profiles[i], incoming, ids)
}

/// After a merge there is, for each import, a profile with its settings and with its forwards
/// under new ids.
pub proof fn law_every_import_arrives(
    profiles: Seq<ProfileView>,
    imported: Seq<ProfileView>,
    fresh: Seq<FreshIdsView>,
    k: int,
)
    requires
        servers_apart(imported),
        0 <= k < imported.len(),
    ensures
        exists|i: int| #[trigger]
            is_imported_at(
                merged(profiles, imported, fresh).profiles,
                i,
                imported[k],
                fresh[k].forwards,
            ),
    decreases imported.len(),
{
    let front = imported.drop_last();
    let last = imported.len() - 1;
    let before = merged(profiles, front, fresh).profiles;
    let after = merged(profiles, imported, fresh).profiles;
    let incoming = imported[last];
    lemma_server_position(before, incoming.server_node_id, 0);
    if k == last {
        match server_position(before, incoming.server_node_id, 0) {
            Some(i) => {
                assert(is_imported_at(after, i, incoming, fresh[k].forwards));
            },
            None => {
                law_import_adds_settings(before, incoming, fresh[k]);
                assert(is_imported_at(after, before.len() as int, incoming, fresh[k].forwards));
            },
        }
    } else {
        assert(servers_apart(front)) by {
            assert forall|i: int, j: int| 0 <= i < j < front.len() implies (
            #[trigger] front[i]).server_node_id != (#[trigger] front[j]).server_node_id by {
                assert(imported[i].server_node_id != imported[j].server_node_id);
            }
        }
        law_every_import_arrives(profiles, front, fresh, k);
        let i = choose|i: int| #[trigger]
            is_imported_at(before, i, front[k], fresh[k].forwards);
        assert(imported[k].server_node_id != imported[last].server_node_id);
        assert(after[i] == before[i]);
        assert(is_imported_at(after, i, imported[k], fresh[k].forwards));
    }
}

/// Whether an import is for the given server.
pub open spec fn is_imported(imported: Seq<ProfileView>, server: Seq<char>) -> bool {
    exists|k: int| 0 <= k < imported.len() && (#[trigger] imported[k]).server_node_id == server
}

/// A merge counts as replaced exactly the profiles that were there and whose server an import
/// names; the other imports are those that were added.
pub proof fn law_merge_names_the_replaced(
    profiles: Seq<ProfileView>,
    imported: Seq<ProfileView>,
    fresh: Seq<FreshIdsView>,
    i: int,
)
    requires
        profiles_ok(profiles),
        servers_apart(imported),
        fresh.len() >= imported.len(),
        forall|a: int, b: int|
            0 <= a < profiles.len() && 0 <= b < fresh.len() ==> (#[trigger] profiles[a]).id != (
            #[trigger] fresh[b]).profile,
        0 <= i < profiles.len(),
    ensures
        merged(profiles, imported, fresh).replaced.contains(profiles[i].id) <==> is_imported(
            imported,
            profiles[i].server_node_id,
        ),
    decreases imported.len(),
{
    if imported.len() > 0 {
        let front = imported.drop_last();
        let last = imported.len() - 1;
        let m = merged(profiles, front, fresh);
        let n = merged(profiles, imported, fresh);
        let incoming = imported[last];
        assert(imported.last() == incoming);
        assert(servers_apart(front)) by {
            assert forall|a: int, b: int| 0 <= a < b < front.len() implies (
            #[trigger] front[a]).server_node_id != (#[trigger] front[b]).server_node_id by {
                assert(imported[a].server_node_id != imported[b].server_node_id);
            }
        }
        law_merge_names_the_replaced(profiles, front, fresh, i);
        law_merge_keeps_identity(profiles, front, fresh);
        lemma_server_position(m.profiles, incoming.server_node_id, 0);
        if is_imported(front, profiles[i].server_node_id) {
            let k = choose|k: int|
                0 <= k < front.len() && (#[trigger] front[k]).server_node_id
                    == profiles[i].server_node_id;
            assert(imported[k].server_node_id == profiles[i].server_node_id);
            let at = m.replaced.index_of(profiles[i].id);
            assert(n.replaced[at] == profiles[i].id);
        }
        if is_imported(imported, profiles[i].server_node_id) && !is_imported(
            front,
            profiles[i].server_node_id,
        ) {
            let k = choose|k: int|
                0 <= k < imported.len() && (#[trigger] imported[k]).server_node_id
                    == profiles[i].server_node_id;
            if k < last {
                assert(front[k].server_node_id == profiles[i].server_node_id);
            }
            assert(m.profiles[i].server_node_id == incoming.server_node_id);
            assert forall|j: int| 0 <= j < i implies (#[trigger] m.profiles[j]).server_node_id
                != incoming.server_node_id by {
                assert(m.profiles[j].server_node_id == profiles[j].server_node_id);
                assert(profiles[j].server_node_id != profiles[i].server_node_id);
            }
            lemma_position_is_first(m.profiles, incoming.server_node_id, 0, i);
            assert(n.replaced[n.replaced.len() - 1] == m.profiles[i].id);
        }
        if n.replaced.contains(profiles[i].id) && !m.replaced.contains(profiles[i].id) {
            let at = n.replaced.index_of(profiles[i].id);
            if at < m.replaced.len() {
                assert(m.replaced[at] == profiles[i].id);
            }
            let j = server_position(m.profiles, incoming.server_node_id, 0)->0;
            assert(m.profiles[j].id == profiles[i].id);
            if j < profiles.len() {
                assert(m.profiles[j].id == profiles[j].id);
                if j < i {
                    assert(profiles[j].id != profiles[i].id);
                } else if i < j {
                    assert(profiles[i].id != profiles[j].id);
                }
            } else {
                let f = m.profiles[j];
                let b = choose|b: int|
                    0 <= b < front.len() && (#[trigger] fresh[b]).profile == f.id;
                assert(profiles[i].id != fresh[b].profile);
            }
            assert(imported[last].server_node_id == profiles[i].server_node_id);
        }
    }
}

/// Imports are merged one after the other: each one meets the profiles as those before it left
/// them. It counts as replaced, under the id of the profile, if one of these connects to its
/// server, and otherwise as added.
pub proof fn law_merge_goes_one_by_one(
    profiles: Seq<ProfileView>,
    imported: Seq<ProfileView>,
    fresh: Seq<FreshIdsView>,
    x: ProfileView,
    i: int,
)
    ensures
        ({
            let before = merged(profiles, imported, fresh);
            let after = merged(profiles, imported.push(x), fresh);
            let first = 0 <= i < before.profiles.len() && before.profiles[i].server_node_id
                == x.server_node_id && forall|j: int|
                0 <= j < i ==> (#[trigger] before.profiles[j]).server_node_id != x.server_node_id;
            let none = forall|j: int|
                0 <= j < before.profiles.len() ==> (#[trigger] before.profiles[j]).server_node_id
                    != x.server_node_id;
            &&& after.profiles == merged_one(before.profiles, x, fresh[imported.len() as int])
            &&& first ==> after.added == before.added && after.replaced == before.replaced.push(
                before.profiles[i].id,
            )
            &&& none ==> after.added == before.added + 1 && after.replaced == before.replaced
        }),
        merged(profiles, Seq::empty(), fresh).profiles == profiles,
        merged(profiles, Seq::empty(), fresh).added == 0,
        merged(profiles, Seq::empty(), fresh).replaced.len() == 0,
{
    let before = merged(profiles, imported, fresh);
    let all = imported.push(x);
    assert(all.drop_last() == imported);
    lemma_server_position(before.profiles, x.server_node_id, 0);
    if 0 <= i < before.profiles.len() && before.profiles[i].server_node_id == x.server_node_id && (
    forall|j: int|
        0 <= j < i ==> (#[trigger] before.profiles[j]).server_node_id != x.server_node_id) {
        lemma_position_is_first(before.profiles, x.server_node_id, 0, i);
    }
}

} // verus!
