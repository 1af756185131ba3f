//! Merging imported profiles into the current ones.

use vstd::prelude::*;
use vstd::string::*;

use crate::config::{clone_opt, profile_views, Profile, ProfileView};
use crate::forms::profile_name_taken;
use crate::forwards::{forward_views, PortForward, PortForwardView};
use crate::ids::{is_id, random_id};
use crate::naming::{free_name, law_free_name_is_free, law_free_name_is_valid, unique_name};
use crate::ports::{is_same_id, opt_str};
use crate::roster::{
    law_screened_is_well_formed, law_well_formed_is_unchanged, screened, valid_name, well_formed,
    Listed,
};
use crate::text::strings;

verus! {

/// New ids for one imported profile and for its forwards.
pub struct FreshIds {
    pub profile: String,
    pub forwards: Vec<String>,
}

/// What [`FreshIds`] hold.
#[verifier::ext_equal]
pub struct FreshIdsView {
    pub profile: Seq<char>,
    pub forwards: Seq<Seq<char>>,
}

impl View for FreshIds {
    type V = FreshIdsView;

    open spec fn view(&self) -> FreshIdsView {
        FreshIdsView { profile: self.profile@, forwards: strings(self.forwards@) }
    }
}

/// What a list of new ids holds.
pub open spec fn fresh_views(s: Seq<FreshIds>) -> Seq<FreshIdsView> {
    s.map_values(|f: FreshIds| f@)
}

/// The forwards with new ids.
pub open spec fn with_ids(forwards: Seq<PortForwardView>, ids: Seq<Seq<char>>) -> Seq<
    PortForwardView,
> {
    Seq::new(forwards.len(), |i: int| PortForwardView { id: ids[i], ..forwards[i] })
}

/// The position of the first profile from `i` on that connects to `server`.
pub open spec fn server_position(profiles: Seq<ProfileView>, server: Seq<char>, i: int) -> Option<
    int,
>
    decreases profiles.len() - i,
{
    if i < 0 || i >= profiles.len() {
        None
    } else if profiles[i].server_node_id == server {
        Some(i)
    } else {
        server_position(profiles, server, i + 1)
    }
}

/// The names of the profiles other than `own`, in order.
pub open spec fn other_names(profiles: Seq<ProfileView>, own: Option<Seq<char>>) -> Seq<Seq<char>>
    decreases profiles.len(),
{
    if profiles.len() == 0 {
        Seq::empty()
    } else {
        let before = other_names(profiles.drop_last(), own);
        if Some(profiles.last().id) == own {
            before
        } else {
            before.push(profiles.last().name)
        }
    }
}

/// An imported profile as it replaces `current`: with new settings and forwards, and with the
/// id, the key and the relay token of `current`.
pub open spec fn replacement(
    profiles: Seq<ProfileView>,
    current: ProfileView,
    incoming: ProfileView,
    fresh: FreshIdsView,
) -> ProfileView {
    ProfileView {
        id: current.id,
        auth_key_id: current.auth_key_id,
        relay_auth_token: current.relay_auth_token,
        name: free_name(incoming.name, other_names(profiles, Some(current.id))),
        forwards: with_ids(incoming.forwards, fresh.forwards),
        ..incoming
    }
}

/// An imported profile as it is added: with a new id, no key and no relay token.
pub open spec fn addition(
    profiles: Seq<ProfileView>,
    incoming: ProfileView,
    fresh: FreshIdsView,
) -> ProfileView {
    ProfileView {
        id: fresh.profile,
        auth_key_id: Seq::empty(),
        relay_auth_token: None,
        name: free_name(incoming.name, other_names(profiles, None)),
        forwards: with_ids(incoming.forwards, fresh.forwards),
        ..incoming
    }
}

/// The profiles after one imported profile is merged: it replaces the one that connects to the
/// same server, and is added where there is none.
pub open spec fn merged_one(
    profiles: Seq<ProfileView>,
    incoming: ProfileView,
    fresh: FreshIdsView,
) -> Seq<ProfileView> {
    match server_position(profiles, incoming.server_node_id, 0) {
        Some(i) => profiles.update(i, replacement(profiles, profiles[i], incoming, fresh)),
        None => profiles.push(addition(profiles, incoming, fresh)),
    }
}

/// The profiles after a merge, with how many were added and the ids of those that were replaced.
#[verifier::ext_equal]
pub struct Merged {
    pub profiles: Seq<ProfileView>,
    pub added: nat,
    pub replaced: Seq<Seq<char>>,
}

/// The outcome of merging the imported profiles one after the other.
pub open spec fn merged(
    profiles: Seq<ProfileView>,
    imported: Seq<ProfileView>,
    fresh: Seq<FreshIdsView>,
) -> Merged
    decreases imported.len(),
{
    if imported.len() == 0 {
        Merged { profiles, added: 0, replaced: Seq::empty() }
    } else {
        let before = merged(profiles, imported.drop_last(), fresh);
        let incoming = imported.last();
        let after = merged_one(before.profiles, incoming, fresh[imported.len() - 1]);
        match server_position(before.profiles, incoming.server_node_id, 0) {
            Some(i) => Merged {
                profiles: after,
                added: before.added,
                replaced: before.replaced.push(before.profiles[i].id),
            },
            None => Merged {
                profiles: after,
                added: before.added + 1,
                replaced: before.replaced,
            },
        }
    }
}

fn find_server(profiles: &Vec<Profile>, server: &String) -> (r: Option<usize>)
    ensures
        r matches Some(i) ==> i < profiles.len(),
        match r {
            Some(i) => Some(i as int),
            None => None,
        } == server_position(profile_views(profiles@), server@, 0),
{
    let ghost all = profile_views(profiles@);
    let mut i: usize = 0;
    while i < profiles.len()
        invariant
            i <= profiles.len(),
            all == profile_views(profiles@),
            server_position(all, server@, 0) == server_position(all, server@, i as int),
        decreases profiles.len() - i,
    {
        assert(all[i as int] == profiles@[i as int]@);
        if profiles[i].server_node_id == *server {
            return Some(i);
        }
        i += 1;
    }
    None
}

fn collect_other_names(profiles: &Vec<Profile>, own: Option<&str>) -> (r: Vec<String>)
    ensures
        strings(r@) == other_names(profile_views(profiles@), opt_str(own)),
{
    let ghost all = profile_views(profiles@);
    let mut out: Vec<String> = Vec::new();
    let mut i: usize = 0;
    assert(strings(out@) == other_names(all.take(0), opt_str(own)));
    while i < profiles.len()
        invariant
            i <= profiles.len(),
            all == profile_views(profiles@),
            strings(out@) == other_names(all.take(i as int), opt_str(own)),
        decreases profiles.len() - i,
    {
        assert(all.take(i + 1).drop_last() == all.take(i as int));
        assert(all.take(i + 1).last() == profiles@[i as int]@);
        if !is_same_id(profiles[i].id.as_str(), own) {
            let ghost before = out@;
            out.push(profiles[i].name.clone());
            assert(strings(out@) == strings(before).push(profiles@[i as int].name@));
        }
        i += 1;
    }
    assert(all.take(all.len() as int) == all);
    out
}

fn replace_ids(forwards: &Vec<PortForward>, ids: &Vec<String>) -> (r: Vec<PortForward>)
    requires
        ids.len() >= forwards.len(),
    ensures
        forward_views(r@) == with_ids(forward_views(forwards@), strings(ids@)),
{
    let mut out: Vec<PortForward> = Vec::new();
    let ghost all = with_ids(forward_views(forwards@), strings(ids@));
    let mut i: usize = 0;
    while i < forwards.len()
        invariant
            i <= forwards.len() <= ids.len(),
            all == with_ids(forward_views(forwards@), strings(ids@)),
            forward_views(out@) == all.take(i as int),
        decreases forwards.len() - i,
    {
        let mut f = forwards[i].clone();
        f.id = ids[i].clone();
        let ghost before = out@;
        out.push(f);
        assert(forward_views(out@) == forward_views(before).push(f@));
        assert(f@ == all[i as int]);
        i += 1;
    }
    assert(all.take(all.len() as int) == all);
    out
}

/// Merges one imported profile into the current ones and says which profile it replaced, if any.
pub fn merge_one(profiles: &mut Vec<Profile>, incoming: Profile, fresh: &FreshIds) -> (r: Option<
    String,
>)
    requires
        fresh.forwards.len() >= incoming.forwards.len(),
    ensures
        profile_views(final(profiles)@) == merged_one(
            profile_views(old(profiles)@),
            incoming@,
            fresh@,
        ),
        match server_position(profile_views(old(profiles)@), incoming@.server_node_id, 0) {
            Some(i) => r matches Some(id) && id@ == profile_views(old(profiles)@)[i].id,
            None => r is None,
        },
{
    let ghost all = profile_views(profiles@);
    let ghost arrived = incoming@;
    let mut incoming = incoming;
    incoming.forwards = replace_ids(&incoming.forwards, &fresh.forwards);
    match find_server(profiles, &incoming.server_node_id) {
        Some(i) => {
            assert(all[i as int] == profiles@[i as int]@);
            incoming.id = profiles[i].id.clone();
            incoming.auth_key_id = profiles[i].auth_key_id.clone();
            incoming.relay_auth_token = clone_opt(&profiles[i].relay_auth_token);
            let taken = collect_other_names(profiles, Some(incoming.id.as_str()));
            incoming.name = unique_name(incoming.name, &taken);
            let replaced = incoming.id.clone();
            let ghost done = incoming@;
            assert(done == replacement(all, all[i as int], arrived, fresh@));
            profiles.set(i, incoming);
            assert(profile_views(profiles@) == all.update(i as int, done));
            Some(replaced)
        },
        None => {
            incoming.id = fresh.profile.clone();
            incoming.auth_key_id = String::new();
            incoming.relay_auth_token = None;
            let taken = collect_other_names(profiles, None);
            incoming.name = unique_name(incoming.name, &taken);
            let ghost done = incoming@;
            assert(done == addition(all, arrived, fresh@));
            profiles.push(incoming);
            assert(profile_views(profiles@) == all.push(done));
            None
        },
    }
}

/// Merges imported profiles into the current ones, with the given new ids. A profile for a server
/// that is already there replaces its settings and forwards but keeps its id, key and relay token;
/// any other is added without key and token. Names that clash get a number, and forwards get new
/// ids. Returns how many were added and the ids of those that were replaced.
pub fn merge_imported_with_ids(
    profiles: &mut Vec<Profile>,
    imported: Vec<Profile>,
    fresh: &Vec<FreshIds>,
) -> (r: (usize, Vec<String>))
    requires
        fresh.len() >= imported.len(),
        forall|i: int|
            0 <= i < imported.len() ==> (#[trigger] fresh@[i]).forwards.len()
                >= imported@[i].forwards.len(),
    ensures
        (Merged {
            profiles: profile_views(final(profiles)@),
            added: r.0 as nat,
            replaced: strings(r.1@),
        }) == merged(
            profile_views(old(profiles)@),
            profile_views(imported@),
            fresh_views(fresh@),
        ),
{
    let mut added: usize = 0;
    let mut replaced: Vec<String> = Vec::new();
    let ghost start = profile_views(profiles@);
    let ghost all = profile_views(imported@);
    let ghost ids = fresh_views(fresh@);
    let ghost original = imported@;
    let mut rest = imported;
    let mut i: usize = 0;
    assert(strings(replaced@) == Seq::<Seq<char>>::empty());
    assert(all.take(0) == Seq::<ProfileView>::empty());
    assert(original.skip(0) == original);
    while rest.len() > 0
        invariant
            i <= original.len(),
            fresh.len() >= original.len(),
            forall|k: int|
                0 <= k < original.len() ==> (#[trigger] fresh@[k]).forwards.len()
                    >= original[k].forwards.len(),
            rest@ == original.skip(i as int),
            all == profile_views(original),
            ids == fresh_views(fresh@),
            added <= i,
            (Merged {
                profiles: profile_views(profiles@),
                added: added as nat,
                replaced: strings(replaced@),
            }) == merged(start, all.take(i as int), ids),
        decreases rest.len(),
    {
        let ghost before = merged(start, all.take(i as int), ids);
        let incoming = rest.remove(0);
        assert(incoming == original[i as int]);
        assert(fresh@[i as int].forwards.len() >= original[i as int].forwards.len());
        assert(rest@ == original.skip(i + 1));
        assert(all.take(i + 1).drop_last() == all.take(i as int));
        assert(all.take(i + 1).last() == incoming@);
        assert(ids[i as int] == fresh@[i as int]@);
        let ghost old_replaced = replaced@;
        match merge_one(profiles, incoming, &fresh[i]) {
            Some(id) => {
                replaced.push(id);
                assert(strings(replaced@) == strings(old_replaced).push(id@));
            },
            None => {
                added += 1;
            },
        }
        i += 1;
        assert((Merged {
            profiles: profile_views(profiles@),
            added: added as nat,
            replaced: strings(replaced@),
        }) == merged(start, all.take(i as int), ids));
    }
    assert(all.take(all.len() as int) == all);
    (added, replaced)
}

/// Whether `fresh` holds an identifier for each imported profile and for each of its forwards.
pub open spec fn ids_fit(fresh: Seq<FreshIdsView>, imported: Seq<ProfileView>) -> bool {
    &&& fresh.len() == imported.len()
    &&& forall|i: int|
        0 <= i < fresh.len() ==> is_id((#[trigger] fresh[i]).profile) && fresh[i].forwards.len()
            == imported[i].forwards.len()
    &&& forall|i: int, k: int|
        0 <= i < fresh.len() && 0 <= k < fresh[i].forwards.len() ==> is_id(
            #[trigger] fresh[i].forwards[k],
        )
}

pub(crate) fn draw_ids(n: usize) -> (r: Vec<String>)
    ensures
        r.len() == n,
        forall|k: int| 0 <= k < n ==> is_id(#[trigger] strings(r@)[k]),
{
    let mut out: Vec<String> = Vec::new();
    let mut i: usize = 0;
    while i < n
        invariant
            i <= n,
            out.len() == i,
            forall|k: int| 0 <= k < i ==> is_id(#[trigger] strings(out@)[k]),
        decreases n - i,
    {
        let ghost before = strings(out@);
        out.push(random_id());
        assert(forall|k: int| 0 <= k < i ==> #[trigger] strings(out@)[k] == before[k]);
        i += 1;
    }
    out
}

/// Draws new random ids for imported profiles and for their forwards.
pub fn draw_fresh_ids(imported: &Vec<Profile>) -> (r: Vec<FreshIds>)
    ensures
        ids_fit(fresh_views(r@), profile_views(imported@)),
{
    let mut out: Vec<FreshIds> = Vec::new();
    let ghost all = profile_views(imported@);
    let mut i: usize = 0;
    while i < imported.len()
        invariant
            i <= imported.len(),
            all == profile_views(imported@),
            ids_fit(fresh_views(out@), all.take(i as int)),
        decreases imported.len() - i,
    {
        let forwards = draw_ids(imported[i].forwards.len());
        let ghost before = fresh_views(out@);
        let next = FreshIds { profile: random_id(), forwards };
        out.push(next);
        assert(fresh_views(out@) == before.push(next@));
        assert(all.take(i + 1) == all.take(i as int).push(all[i as int]));
        assert(all[i as int].forwards.len() == imported@[i as int].forwards.len());
        i += 1;
    }
    assert(all.take(all.len() as int) == all);
    out
}

/// Merges imported profiles into the current ones, with random new ids. See
/// [`merge_imported_with_ids`].
pub fn merge_imported(profiles: &mut Vec<Profile>, imported: Vec<Profile>) -> (r: (
    usize,
    Vec<String>,
))
    ensures
        exists|fresh: Seq<FreshIdsView>| #[trigger]
            ids_fit(fresh, profile_views(imported@)) && (Merged {
                profiles: profile_views(final(profiles)@),
                added: r.0 as nat,
                replaced: strings(r.1@),
            }) == merged(profile_views(old(profiles)@), profile_views(imported@), fresh),
{
    let fresh = draw_fresh_ids(&imported);
    assert forall|i: int| 0 <= i < imported.len() implies (#[trigger] fresh@[i]).forwards.len()
        >= imported@[i].forwards.len() by {
        assert(fresh_views(fresh@)[i].forwards.len() == profile_views(imported@)[i].forwards.len());
    }
    merge_imported_with_ids(profiles, imported, &fresh)
}

/// Whether a list of profiles keeps its rules: names are well formed, and no two profiles share
/// an id, a name or a server.
pub open spec fn profiles_ok(s: Seq<ProfileView>) -> bool {
    &&& forall|i: int| 0 <= i < s.len() ==> valid_name((#[trigger] s[i]).name)
    &&& forall|i: int, j: int|
        0 <= i < j < s.len() ==> (#[trigger] s[i]).id != (#[trigger] s[j]).id && s[i].name
            != s[j].name && s[i].server_node_id != s[j].server_node_id
}

/// The rules for a list of profiles are those that screening it establishes.
pub proof fn law_rules_are_those_of_screening(s: Seq<ProfileView>)
    ensures
        profiles_ok(s) == well_formed(s),
        profiles_ok(screened(s)),
        profiles_ok(s) ==> screened(s) == s,
{
    lemma_rules(s);
    lemma_rules(screened(s));
    law_screened_is_well_formed(s);
    if profiles_ok(s) {
        law_well_formed_is_unchanged(s);
    }
}

proof fn lemma_rules(s: Seq<ProfileView>)
    ensures
        profiles_ok(s) == well_formed(s),
{
    if well_formed(s) {
        assert forall|i: int, j: int| 0 <= i < j < s.len() implies (#[trigger] s[i]).id != (
        #[trigger] s[j]).id && s[i].name != s[j].name && s[i].server_node_id
            != s[j].server_node_id by {
            assert(s[i].entry_id() != s[j].entry_id());
        }
        assert forall|i: int| 0 <= i < s.len() implies valid_name((#[trigger] s[i]).name) by {
            assert(valid_name(s[i].entry_name()));
        }
    }
    if profiles_ok(s) {
        assert forall|i: int, j: int| 0 <= i < j < s.len() implies (#[trigger] s[i]).entry_id() != (
        #[trigger] s[j]).entry_id() && s[i].entry_name() != s[j].entry_name() && s[i].entry_mark()
            != s[j].entry_mark() by {
            assert(s[i].id != s[j].id);
        }
        assert forall|i: int| 0 <= i < s.len() implies valid_name((#[trigger] s[i]).entry_name())
            && (<ProfileView as Listed>::rejects_empty_id() ==> s[i].entry_id().len() > 0) by {
            assert(valid_name(s[i].name));
        }
    }
}

/// The names of the other profiles are those that count as taken.
proof fn lemma_other_names(profiles: Seq<ProfileView>, own: Option<Seq<char>>, name: Seq<char>)
    ensures
        other_names(profiles, own).contains(name) <==> profile_name_taken(profiles, name, own),
        other_names(profiles, own).len() <= profiles.len(),
    decreases profiles.len(),
{
    if profiles.len() > 0 {
        let init = profiles.drop_last();
        let before = other_names(init, own);
        lemma_other_names(init, own, name);
        let last = profiles.last();
        assert(forall|i: int| 0 <= i < init.len() ==> #[trigger] init[i] == profiles[i]);
        assert forall|x: Seq<char>|
            before.push(last.name).contains(x) <==> before.contains(x) || x == last.name by {
            if before.contains(x) {
                let k = choose|k: int| 0 <= k < before.len() && before[k] == x;
                assert(before.push(last.name)[k] == x);
            }
            assert(before.push(last.name)[before.len() as int] == last.name);
        }
        if profile_name_taken(profiles, name, own) {
            let i = choose|i: int|
                0 <= i < profiles.len() && (#[trigger] profiles[i]).name == name && Some(
                    profiles[i].id,
                ) != own;
            if i < init.len() {
                assert(init[i].name == name);
            }
        }
        if profile_name_taken(init, name, own) {
            let i = choose|i: int|
                0 <= i < init.len() && (#[trigger] init[i]).name == name && Some(init[i].id) != own;
            assert(profiles[i].name == name);
        }
        if other_names(profiles, own).contains(name) && !before.contains(name) {
            assert(profiles[profiles.len() - 1].name == name);
        }
    }
}

/// Where the first profile for a server is.
pub proof fn lemma_server_position(profiles: Seq<ProfileView>, server: Seq<char>, i: int)
    requires
        0 <= i <= profiles.len(),
    ensures
        match server_position(profiles, server, i) {
            Some(k) => i <= k < profiles.len() && profiles[k].server_node_id == server,
            None => forall|k: int|
                i <= k < profiles.len() ==> (#[trigger] profiles[k]).server_node_id != server,
        },
    decreases profiles.len() - i,
{
    if i < profiles.len() && profiles[i].server_node_id != server {
        lemma_server_position(profiles, server, i + 1);
    }
}

/// Merging one profile keeps the rules of the list, given that its name is well formed and that
/// the new id is not in use.
pub proof fn law_merge_one_keeps_rules(
    profiles: Seq<ProfileView>,
    incoming: ProfileView,
    fresh: FreshIdsView,
)
    requires
        profiles_ok(profiles),
        profiles.len() <= usize::MAX,
        valid_name(incoming.name),
        forall|i: int| 0 <= i < profiles.len() ==> (#[trigger] profiles[i]).id != fresh.profile,
    ensures
        profiles_ok(merged_one(profiles, incoming, fresh)),
{
    let r = merged_one(profiles, incoming, fresh);
    lemma_server_position(profiles, incoming.server_node_id, 0);
    match server_position(profiles, incoming.server_node_id, 0) {
        Some(k) => {
            let own = Some(profiles[k].id);
            let taken = other_names(profiles, own);
            lemma_other_names(profiles, own, free_name(incoming.name, taken));
            law_free_name_is_free(incoming.name, taken);
            law_free_name_is_valid(incoming.name, taken);
            assert forall|i: int, j: int| 0 <= i < j < r.len() implies (#[trigger] r[i]).id != (
            #[trigger] r[j]).id && r[i].name != r[j].name && r[i].server_node_id
                != r[j].server_node_id by {
                assert(profiles[i].id != profiles[j].id);
            }
        },
        None => {
            let taken = other_names(profiles, None);
            lemma_other_names(profiles, None, free_name(incoming.name, taken));
            law_free_name_is_free(incoming.name, taken);
            law_free_name_is_valid(incoming.name, taken);
            assert forall|i: int, j: int| 0 <= i < j < r.len() implies (#[trigger] r[i]).id != (
            #[trigger] r[j]).id && r[i].name != r[j].name && r[i].server_node_id
                != r[j].server_node_id by {
                if j < profiles.len() {
                    assert(profiles[i].id != profiles[j].id);
                } else {
                    assert(profiles[i].id != fresh.profile);
                }
            }
        },
    }
}

/// What a merge does to the profiles that were there: each keeps its place, its id, its server,
/// its key and its relay token. What it adds stands behind them, without key and token, under the
/// new ids.
pub proof fn law_merge_keeps_identity(
    profiles: Seq<ProfileView>,
    imported: Seq<ProfileView>,
    fresh: Seq<FreshIdsView>,
)
    requires
        fresh.len() >= imported.len(),
    ensures
        merged(profiles, imported, fresh).profiles.len() == profiles.len() + merged(
            profiles,
            imported,
            fresh,
        ).added,
        merged(profiles, imported, fresh).added + merged(profiles, imported, fresh).replaced.len()
            == imported.len(),
        forall|i: int|
            0 <= i < profiles.len() ==> {
                let after = #[trigger] merged(profiles, imported, fresh).profiles[i];
                &&& after.id == profiles[i].id
                &&& after.server_node_id == profiles[i].server_node_id
                &&& after.auth_key_id == profiles[i].auth_key_id
                &&& after.relay_auth_token == profiles[i].relay_auth_token
            },
        forall|i: int|
            profiles.len() <= i < merged(profiles, imported, fresh).profiles.len() ==> {
                let after = #[trigger] merged(profiles, imported, fresh).profiles[i];
                &&& after.auth_key_id.len() == 0
                &&& after.relay_auth_token is None
                &&& exists|k: int| 0 <= k < imported.len() && (#[trigger] fresh[k]).profile
                    == after.id
            },
    decreases imported.len(),
{
    if imported.len() > 0 {
        let init = imported.drop_last();
        law_merge_keeps_identity(profiles, init, fresh);
        let before = merged(profiles, init, fresh);
        let after = merged(profiles, imported, fresh);
        let last = fresh[imported.len() - 1];
        lemma_server_position(before.profiles, imported.last().server_node_id, 0);
        assert forall|i: int| profiles.len() <= i < after.profiles.len() implies {
            let a = #[trigger] after.profiles[i];
            &&& a.auth_key_id.len() == 0
            &&& a.relay_auth_token is None
            &&& exists|k: int| 0 <= k < imported.len() && (#[trigger] fresh[k]).profile == a.id
        } by {
            if i < before.profiles.len() {
                let b = before.profiles[i];
                assert(b.auth_key_id.len() == 0 && b.relay_auth_token is None);
                let k = choose|k: int|
                    0 <= k < init.len() && (#[trigger] fresh[k]).profile == b.id;
                assert(fresh[k].profile == after.profiles[i].id);
            } else {
                assert(fresh[imported.len() - 1].profile == after.profiles[i].id);
            }
        }
    }
}

/// A merge keeps the rules of the list, given that the imported names are well formed and that
/// the new ids are distinct and not in use.
pub proof fn law_merge_keeps_rules(
    profiles: Seq<ProfileView>,
    imported: Seq<ProfileView>,
    fresh: Seq<FreshIdsView>,
)
    requires
        profiles_ok(profiles),
        fresh.len() >= imported.len(),
        profiles.len() + imported.len() <= usize::MAX,
        forall|i: int| 0 <= i < imported.len() ==> valid_name((#[trigger] imported[i]).name),
        forall|i: int, j: int|
            0 <= i < profiles.len() && 0 <= j < fresh.len() ==> (#[trigger] profiles[i]).id != (
            #[trigger] fresh[j]).profile,
        forall|i: int, j: int|
            0 <= i < j < fresh.len() ==> (#[trigger] fresh[i]).profile != (
            #[trigger] fresh[j]).profile,
    ensures
        profiles_ok(merged(profiles, imported, fresh).profiles),
    decreases imported.len(),
{
    if imported.len() > 0 {
        let init = imported.drop_last();
        law_merge_keeps_rules(profiles, init, fresh);
        law_merge_keeps_identity(profiles, init, fresh);
        let before = merged(profiles, init, fresh);
        let last = fresh[imported.len() - 1];
        assert forall|i: int| 0 <= i < before.profiles.len() implies (
        #[trigger] before.profiles[i]).id != last.profile by {
            if i < profiles.len() {
                assert(before.profiles[i].id == profiles[i].id);
            } else {
                let b = before.profiles[i];
                let k = choose|k: int|
                    0 <= k < init.len() && (#[trigger] fresh[k]).profile == b.id;
                assert(fresh[k].profile != fresh[imported.len() - 1].profile);
            }
        }
        law_merge_one_keeps_rules(before.profiles, imported.last(), last);
    }
}

/// Every profile keeps its place and its server, and one that is not among the replaced ones stays
/// as it is.
pub proof fn lemma_merge_keeps_places(
    profiles: Seq<ProfileView>,
    imported: Seq<ProfileView>,
    fresh: Seq<FreshIdsView>,
)
    ensures
        merged(profiles, imported, fresh).profiles.len() >= profiles.len(),
        forall|i: int|
            0 <= i < profiles.len() ==> {
                let after = #[trigger] merged(profiles, imported, fresh).profiles[i];
                &&& after.id == profiles[i].id
                &&& after.server_node_id == profiles[i].server_node_id
                &&& !merged(profiles, imported, fresh).replaced.contains(profiles[i].id) ==> after
                    == profiles[i]
            },
    decreases imported.len(),
{
    if imported.len() > 0 {
        let init = imported.drop_last();
        lemma_merge_keeps_places(profiles, init, fresh);
        let before = merged(profiles, init, fresh);
        let after = merged(profiles, imported, fresh);
        let server = imported.last().server_node_id;
        lemma_server_position(before.profiles, server, 0);
        assert forall|id: Seq<char>| before.replaced.contains(id) implies after.replaced.contains(
            id,
        ) by {
            let k = before.replaced.index_of(id);
            assert(after.replaced[k] == id);
        }
        if let Some(k) = server_position(before.profiles, server, 0) {
            assert(after.replaced.last() == before.profiles[k].id);
            assert(after.replaced.contains(before.profiles[k].id));
        }
        assert forall|i: int| 0 <= i < profiles.len() implies {
            let a = #[trigger] after.profiles[i];
            &&& a.id == profiles[i].id
            &&& a.server_node_id == profiles[i].server_node_id
            &&& !after.replaced.contains(profiles[i].id) ==> a == profiles[i]
        } by {
            let b = before.profiles[i];
            assert(b.id == profiles[i].id);
        }
    }
}

/// A profile whose server no import names stays as it is.
pub proof fn law_merge_leaves_other_profiles(
    profiles: Seq<ProfileView>,
    imported: Seq<ProfileView>,
    fresh: Seq<FreshIdsView>,
    i: int,
)
    requires
        0 <= i < profiles.len(),
        forall|k: int|
            0 <= k < imported.len() ==> (#[trigger] imported[k]).server_node_id
                != profiles[i].server_node_id,
    ensures
        merged(profiles, imported, fresh).profiles.len() > i,
        merged(profiles, imported, fresh).profiles[i] == profiles[i],
    decreases imported.len(),
{
    if imported.len() > 0 {
        let init = imported.drop_last();
        assert forall|k: int| 0 <= k < init.len() implies (#[trigger] init[k]).server_node_id
            != profiles[i].server_node_id by {
            assert(imported[k].server_node_id != profiles[i].server_node_id);
        }
        law_merge_leaves_other_profiles(profiles, init, fresh, i);
        assert(imported[imported.len() - 1].server_node_id != profiles[i].server_node_id);
        lemma_server_position(
            merged(profiles, init, fresh).profiles,
            imported.last().server_node_id,
            0,
        );
    }
}

/// Whether a profile connects to the given server.
pub open spec fn has_server(profiles: Seq<ProfileView>, server: Seq<char>) -> bool {
    exists|i: int| 0 <= i < profiles.len() && (#[trigger] profiles[i]).server_node_id == server
}

/// After a merge there is a profile for the server of each import.
proof fn lemma_imported_servers(
    profiles: Seq<ProfileView>,
    imported: Seq<ProfileView>,
    fresh: Seq<FreshIdsView>,
)
    ensures
        forall|k: int|
            0 <= k < imported.len() ==> has_server(
                merged(profiles, imported, fresh).profiles,
                (#[trigger] imported[k]).server_node_id,
            ),
    decreases imported.len(),
{
    if imported.len() > 0 {
        let init = imported.drop_last();
        lemma_imported_servers(profiles, init, fresh);
        let before = merged(profiles, init, fresh).profiles;
        let after = merged(profiles, imported, fresh).profiles;
        let server = imported.last().server_node_id;
        lemma_server_position(before, server, 0);
        assert forall|k: int| 0 <= k < imported.len() implies has_server(
            after,
            (#[trigger] imported[k]).server_node_id,
        ) by {
            if k < init.len() {
                let s = init[k].server_node_id;
                assert(has_server(before, s));
                let i = choose|i: int|
                    0 <= i < before.len() && (#[trigger] before[i]).server_node_id == s;
                assert(after[i].server_node_id == s);
            } else {
                let i = match server_position(before, server, 0) {
                    Some(i) => i,
                    None => before.len() as int,
                };
                assert(after[i].server_node_id == server);
            }
        }
    }
}

/// Where there is a profile for each import, nothing is added.
proof fn lemma_nothing_added(
    profiles: Seq<ProfileView>,
    imported: Seq<ProfileView>,
    fresh: Seq<FreshIdsView>,
)
    requires
        forall|k: int|
            0 <= k < imported.len() ==> has_server(
                profiles,
                (#[trigger] imported[k]).server_node_id,
            ),
    ensures
        merged(profiles, imported, fresh).added == 0,
        merged(profiles, imported, fresh).replaced.len() == imported.len(),
        merged(profiles, imported, fresh).profiles.len() == profiles.len(),
    decreases imported.len(),
{
    if imported.len() > 0 {
        let init = imported.drop_last();
        assert forall|k: int| 0 <= k < init.len() implies has_server(
            profiles,
            (#[trigger] init[k]).server_node_id,
        ) by {
            assert(has_server(profiles, imported[k].server_node_id));
        }
        lemma_nothing_added(profiles, init, fresh);
        lemma_merge_keeps_places(profiles, init, fresh);
        let before = merged(profiles, init, fresh).profiles;
        let server = imported[imported.len() - 1].server_node_id;
        assert(has_server(profiles, server));
        let i = choose|i: int|
            0 <= i < profiles.len() && (#[trigger] profiles[i]).server_node_id == server;
        assert(before[i].server_node_id == server);
        lemma_server_position(before, server, 0);
    }
}

/// Merging the same list again adds nothing: each import replaces the profile that the first merge
/// left for its server.
pub proof fn law_merging_again_adds_nothing(
    profiles: Seq<ProfileView>,
    imported: Seq<ProfileView>,
    fresh: Seq<FreshIdsView>,
    again: Seq<FreshIdsView>,
)
    ensures
        ({
            let once = merged(profiles, imported, fresh).profiles;
            let twice = merged(once, imported, again);
            &&& twice.added == 0
            &&& twice.replaced.len() == imported.len()
            &&& twice.profiles.len() == once.len()
        }),
{
    lemma_imported_servers(profiles, imported, fresh);
    lemma_nothing_added(merged(profiles, imported, fresh).profiles, imported, again);
}

} // verus!
