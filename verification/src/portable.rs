//! Profiles that travel between installs: what an export holds, and what an import takes.
//!
//! An export holds no secret and nothing that means something in one install only: no ids, no
//! reference to a key, no relay token. A file written by hand may hold them. An import does not
//! trust it with a key or a token; its ids only tell its entries apart.

use vstd::prelude::*;
use vstd::string::*;

use crate::config::{clone_strings, drop_invalid, profile_views, Profile, ProfileView};
use crate::forwards::{forward_views, PortForward, PortForwardView};
use crate::ids::{is_id, random_id};
use crate::merge::{
    draw_ids, fresh_views, law_rules_are_those_of_screening, profiles_ok, FreshIds, FreshIdsView,
};
use crate::roster::{law_screened_comes_from_the_list, screened, valid_name};
use crate::text::{opt_string, strings};

verus! {

/// A forward in a file that travels.
#[derive(Debug, PartialEq, Eq)]
pub struct PortableForward {
    /// Absent in an export.
    pub id: Option<String>,
    pub label: String,
    pub local_port: u16,
    pub remote_host: String,
    pub remote_port: u16,
}

/// What a [`PortableForward`] holds.
#[verifier::ext_equal]
pub struct PortableForwardView {
    pub id: Option<Seq<char>>,
    pub label: Seq<char>,
    pub local_port: u16,
    pub remote_host: Seq<char>,
    pub remote_port: u16,
}

impl View for PortableForward {
    type V = PortableForwardView;

    open spec fn view(&self) -> PortableForwardView {
        PortableForwardView {
            id: opt_string(self.id),
            label: self.label@,
            local_port: self.local_port,
            remote_host: self.remote_host@,
            remote_port: self.remote_port,
        }
    }
}

/// The views of forwards that travel.
pub open spec fn portable_forward_views(s: Seq<PortableForward>) -> Seq<PortableForwardView> {
    s.map_values(|f: PortableForward| f@)
}

/// A profile in a file that travels.
#[derive(Debug, PartialEq, Eq)]
pub struct PortableProfile {
    /// Absent in an export.
    pub id: Option<String>,
    pub name: String,
    pub server_node_id: String,
    /// Absent in an export, and not taken from a file that holds one.
    pub auth_key_id: Option<String>,
    pub socks_port: Option<u16>,
    pub http_port: Option<u16>,
    pub relay_urls: Vec<String>,
    /// Absent in an export, and not taken from a file that holds one.
    pub relay_auth_token: Option<String>,
    pub forwards: Vec<PortableForward>,
}

/// What a [`PortableProfile`] holds.
#[verifier::ext_equal]
pub struct PortableProfileView {
    pub id: Option<Seq<char>>,
    pub name: Seq<char>,
    pub server_node_id: Seq<char>,
    pub auth_key_id: Option<Seq<char>>,
    pub socks_port: Option<u16>,
    pub http_port: Option<u16>,
    pub relay_urls: Seq<Seq<char>>,
    pub relay_auth_token: Option<Seq<char>>,
    pub forwards: Seq<PortableForwardView>,
}

impl View for PortableProfile {
    type V = PortableProfileView;

    open spec fn view(&self) -> PortableProfileView {
        PortableProfileView {
            id: opt_string(self.id),
            name: self.name@,
            server_node_id: self.server_node_id@,
            auth_key_id: opt_string(self.auth_key_id),
            socks_port: self.socks_port,
            http_port: self.http_port,
            relay_urls: strings(self.relay_urls@),
            relay_auth_token: opt_string(self.relay_auth_token),
            forwards: portable_forward_views(self.forwards@),
        }
    }
}

/// The views of profiles that travel.
pub open spec fn portable_views(s: Seq<PortableProfile>) -> Seq<PortableProfileView> {
    s.map_values(|p: PortableProfile| p@)
}

/// A forward as it is exported.
pub open spec fn exported_forward(f: PortForwardView) -> PortableForwardView {
    PortableForwardView {
        id: None,
        label: f.label,
        local_port: f.local_port,
        remote_host: f.remote_host,
        remote_port: f.remote_port,
    }
}

/// A profile as it is exported.
pub open spec fn exported(p: ProfileView) -> PortableProfileView {
    PortableProfileView {
        id: None,
        name: p.name,
        server_node_id: p.server_node_id,
        auth_key_id: None,
        socks_port: p.socks_port,
        http_port: p.http_port,
        relay_urls: p.relay_urls,
        relay_auth_token: None,
        forwards: p.forwards.map_values(|f: PortForwardView| exported_forward(f)),
    }
}

fn export_forwards(v: &Vec<PortForward>) -> (r: Vec<PortableForward>)
    ensures
        portable_forward_views(r@) == forward_views(v@).map_values(
            |f: PortForwardView| exported_forward(f),
        ),
{
    let mut out: Vec<PortableForward> = Vec::new();
    let mut i: usize = 0;
    while i < v.len()
        invariant
            i <= v.len(),
            out@.len() == i,
            forall|j: int| 0 <= j < i ==> (#[trigger] out@[j])@ == exported_forward(v@[j]@),
        decreases v.len() - i,
    {
        let f = &v[i];
        out.push(
            PortableForward {
                id: None,
                label: f.label.clone(),
                local_port: f.local_port,
                remote_host: f.remote_host.clone(),
                remote_port: f.remote_port,
            },
        );
        i += 1;
    }
    assert(portable_forward_views(out@) == forward_views(v@).map_values(
        |f: PortForwardView| exported_forward(f),
    ));
    out
}

/// What an export of the profiles holds.
pub fn export_profiles(profiles: &[Profile]) -> (r: Vec<PortableProfile>)
    ensures
        portable_views(r@) == profile_views(profiles@).map_values(|p: ProfileView| exported(p)),
{
    let mut out: Vec<PortableProfile> = Vec::new();
    let mut i: usize = 0;
    while i < profiles.len()
        invariant
            i <= profiles.len(),
            out@.len() == i,
            forall|j: int| 0 <= j < i ==> (#[trigger] out@[j])@ == exported(profiles@[j]@),
        decreases profiles.len() - i,
    {
        let p = &profiles[i];
        let next = PortableProfile {
            id: None,
            name: p.name.clone(),
            server_node_id: p.server_node_id.clone(),
            auth_key_id: None,
            socks_port: p.socks_port,
            http_port: p.http_port,
            relay_urls: clone_strings(&p.relay_urls),
            relay_auth_token: None,
            forwards: export_forwards(&p.forwards),
        };
        assert(next@ == exported(p@));
        out.push(next);
        i += 1;
    }
    assert(portable_views(out@) == profile_views(profiles@).map_values(
        |p: ProfileView| exported(p),
    ));
    out
}

/// The id of an entry in a file, or a new one where it has none.
pub open spec fn id_or(id: Option<Seq<char>>, fresh: Seq<char>) -> Seq<char> {
    match id {
        Some(id) => id,
        None => fresh,
    }
}

/// A forward as it is imported: switched off, with a new id where the file has none.
pub open spec fn imported_forward(f: PortableForwardView, fresh: Seq<char>) -> PortForwardView {
    PortForwardView {
        id: id_or(f.id, fresh),
        label: f.label,
        local_port: f.local_port,
        remote_host: f.remote_host,
        remote_port: f.remote_port,
        enabled: false,
    }
}

/// A profile as it is imported: without key and relay token, with new ids where the file has none.
pub open spec fn imported(p: PortableProfileView, fresh: FreshIdsView) -> ProfileView {
    ProfileView {
        id: id_or(p.id, fresh.profile),
        name: p.name,
        server_node_id: p.server_node_id,
        auth_key_id: Seq::empty(),
        socks_port: p.socks_port,
        http_port: p.http_port,
        relay_urls: p.relay_urls,
        relay_auth_token: None,
        forwards: p.forwards.map(
            |i: int, f: PortableForwardView| imported_forward(f, fresh.forwards[i]),
        ),
    }
}

/// The profiles of a file before they are screened.
pub open spec fn imported_all(file: Seq<PortableProfileView>, fresh: Seq<FreshIdsView>) -> Seq<
    ProfileView,
> {
    file.map(|i: int, p: PortableProfileView| imported(p, fresh[i]))
}

/// Whether `fresh` holds an identifier for each profile of a file and for each of its forwards.
pub open spec fn file_ids_fit(fresh: Seq<FreshIdsView>, file: Seq<PortableProfileView>) -> bool {
    &&& fresh.len() == file.len()
    &&& forall|i: int|
        0 <= i < fresh.len() ==> is_id((#[trigger] fresh[i]).profile) && fresh[i].forwards.len()
            == file[i].forwards.len()
    &&& forall|i: int, k: int|
        0 <= i < fresh.len() && 0 <= k < fresh[i].forwards.len() ==> is_id(
            #[trigger] fresh[i].forwards[k],
        )
}

fn given_or(id: &Option<String>, fresh: &String) -> (r: String)
    ensures
        r@ == id_or(opt_string(*id), fresh@),
{
    match id {
        Some(id) => id.clone(),
        None => fresh.clone(),
    }
}

fn import_forwards(v: &Vec<PortableForward>, fresh: &Vec<String>) -> (r: Vec<PortForward>)
    requires
        fresh.len() == v.len(),
    ensures
        forward_views(r@) == portable_forward_views(v@).map(
            |i: int, f: PortableForwardView| imported_forward(f, strings(fresh@)[i]),
        ),
{
    let mut out: Vec<PortForward> = Vec::new();
    let mut i: usize = 0;
    while i < v.len()
        invariant
            i <= v.len(),
            fresh.len() == v.len(),
            out@.len() == i,
            forall|j: int|
                0 <= j < i ==> (#[trigger] out@[j])@ == imported_forward(v@[j]@, fresh@[j]@),
        decreases v.len() - i,
    {
        let f = &v[i];
        out.push(
            PortForward {
                id: given_or(&f.id, &fresh[i]),
                label: f.label.clone(),
                local_port: f.local_port,
                remote_host: f.remote_host.clone(),
                remote_port: f.remote_port,
                enabled: false,
            },
        );
        i += 1;
    }
    assert(forward_views(out@) == portable_forward_views(v@).map(
        |i: int, f: PortableForwardView| imported_forward(f, strings(fresh@)[i]),
    ));
    out
}

/// The profiles that a file gives, with the given new ids where it has none. Entries that break
/// the rules for a list of profiles are dropped, the first of those that clash stays.
pub fn import_profiles_with_ids(file: &Vec<PortableProfile>, fresh: &Vec<FreshIds>) -> (r: Vec<
    Profile,
>)
    requires
        fresh.len() == file.len(),
        forall|i: int|
            0 <= i < file.len() ==> (#[trigger] fresh@[i]).forwards.len() == file@[i].forwards.len(),
    ensures
        profile_views(r@) == screened(imported_all(portable_views(file@), fresh_views(fresh@))),
{
    let mut out: Vec<Profile> = Vec::new();
    let mut i: usize = 0;
    while i < file.len()
        invariant
            i <= file.len(),
            fresh.len() == file.len(),
            forall|i: int|
                0 <= i < file.len() ==> (#[trigger] fresh@[i]).forwards.len()
                    == file@[i].forwards.len(),
            out@.len() == i,
            forall|j: int| 0 <= j < i ==> (#[trigger] out@[j])@ == imported(file@[j]@, fresh@[j]@),
        decreases file.len() - i,
    {
        let p = &file[i];
        assert(fresh@[i as int].forwards.len() == file@[i as int].forwards.len());
        let next = Profile {
            id: given_or(&p.id, &fresh[i].profile),
            name: p.name.clone(),
            server_node_id: p.server_node_id.clone(),
            auth_key_id: String::new(),
            socks_port: p.socks_port,
            http_port: p.http_port,
            relay_urls: clone_strings(&p.relay_urls),
            relay_auth_token: None,
            forwards: import_forwards(&p.forwards, &fresh[i].forwards),
        };
        assert(next@ == imported(p@, fresh@[i as int]@));
        out.push(next);
        i += 1;
    }
    assert(profile_views(out@) == imported_all(portable_views(file@), fresh_views(fresh@)));
    drop_invalid(out)
}

fn draw_file_ids(file: &Vec<PortableProfile>) -> (r: Vec<FreshIds>)
    ensures
        file_ids_fit(fresh_views(r@), portable_views(file@)),
{
    let mut out: Vec<FreshIds> = Vec::new();
    let ghost all = portable_views(file@);
    let mut i: usize = 0;
    while i < file.len()
        invariant
            i <= file.len(),
            all == portable_views(file@),
            file_ids_fit(fresh_views(out@), all.take(i as int)),
        decreases file.len() - i,
    {
        let forwards = draw_ids(file[i].forwards.len());
        let ghost before = fresh_views(out@);
        let next = FreshIds { profile: random_id(), forwards };
        out.push(next);
        assert(fresh_views(out@) == before.push(next@));
        assert(all.take(i + 1) == all.take(i as int).push(all[i as int]));
        assert(all[i as int].forwards.len() == file@[i as int].forwards.len());
        i += 1;
    }
    assert(all.take(all.len() as int) == all);
    out
}

/// The profiles that a file gives, with random new ids where it has none. See
/// [`import_profiles_with_ids`].
pub fn import_profiles(file: &Vec<PortableProfile>) -> (r: Vec<Profile>)
    ensures
        exists|fresh: Seq<FreshIdsView>| #[trigger]
            file_ids_fit(fresh, portable_views(file@)) && profile_views(r@) == screened(
                imported_all(portable_views(file@), fresh),
            ),
{
    let fresh = draw_file_ids(file);
    assert forall|i: int| 0 <= i < file.len() implies (#[trigger] fresh@[i]).forwards.len()
        == file@[i].forwards.len() by {
        assert(fresh_views(fresh@)[i].forwards.len() == portable_views(file@)[i].forwards.len());
    }
    import_profiles_with_ids(file, &fresh)
}

/// A profile without what means something in one install only, and without its relay token.
pub open spec fn portable_part(p: ProfileView) -> ProfileView {
    ProfileView {
        id: Seq::empty(),
        auth_key_id: Seq::empty(),
        relay_auth_token: None,
        forwards: p.forwards.map_values(
            |f: PortForwardView| PortForwardView { id: Seq::empty(), enabled: false, ..f },
        ),
        ..p
    }
}

/// An export holds no key reference and no relay token, and tells nothing of ids and switches
/// either: profiles that differ in these alone have the same export.
pub proof fn law_export_holds_no_secret(a: ProfileView, b: ProfileView)
    requires
        portable_part(a) == portable_part(b),
    ensures
        exported(a) == exported(b),
        exported(a).id is None,
        exported(a).auth_key_id is None,
        exported(a).relay_auth_token is None,
{
    let x = exported(a).forwards;
    let y = exported(b).forwards;
    let fa = portable_part(a).forwards;
    let fb = portable_part(b).forwards;
    assert(fa.len() == a.forwards.len() && fb.len() == b.forwards.len());
    assert forall|i: int| 0 <= i < x.len() implies x[i] == y[i] by {
        assert(fa[i] == (PortForwardView { id: Seq::empty(), enabled: false, ..a.forwards[i] }));
        assert(fb[i] == (PortForwardView { id: Seq::empty(), enabled: false, ..b.forwards[i] }));
    }
    assert(x == y);
    let pa = portable_part(a);
    assert(pa.name == a.name && pa.name == b.name);
    assert(pa.server_node_id == a.server_node_id && pa.server_node_id == b.server_node_id);
    assert(pa.socks_port == a.socks_port && pa.socks_port == b.socks_port);
    assert(pa.http_port == a.http_port && pa.http_port == b.http_port);
    assert(pa.relay_urls == a.relay_urls && pa.relay_urls == b.relay_urls);
}

/// What is imported has no key and no relay token, whatever the file says, and keeps the rules for
/// a list of profiles.
pub proof fn law_import_is_harmless(file: Seq<PortableProfileView>, fresh: Seq<FreshIdsView>, i: int)
    requires
        0 <= i < screened(imported_all(file, fresh)).len(),
    ensures
        screened(imported_all(file, fresh))[i].auth_key_id.len() == 0,
        screened(imported_all(file, fresh))[i].relay_auth_token is None,
        profiles_ok(screened(imported_all(file, fresh))),
{
    let all = imported_all(file, fresh);
    law_rules_are_those_of_screening(all);
    law_screened_comes_from_the_list(all, i);
    let k = all.index_of(screened(all)[i]);
    assert(all[k] == imported(file[k], fresh[k]));
}

/// An export that is imported gives back the portable part of each profile, with the new ids.
pub proof fn law_export_imports_back(
    profiles: Seq<ProfileView>,
    fresh: Seq<FreshIdsView>,
    i: int,
)
    requires
        profiles_ok(profiles),
        fresh.len() == profiles.len(),
        forall|i: int, j: int|
            0 <= i < j < fresh.len() ==> (#[trigger] fresh[i]).profile != (
            #[trigger] fresh[j]).profile,
        0 <= i < profiles.len(),
    ensures
        ({
            let file = profiles.map_values(|p: ProfileView| exported(p));
            let back = screened(imported_all(file, fresh));
            &&& back.len() == profiles.len()
            &&& portable_part(back[i]) == portable_part(profiles[i])
            &&& back[i].id == fresh[i].profile
        }),
{
    let file = profiles.map_values(|p: ProfileView| exported(p));
    let all = imported_all(file, fresh);
    assert(all.len() == profiles.len());
    assert(profiles_ok(all)) by {
        assert forall|k: int| 0 <= k < all.len() implies valid_name(
            (#[trigger] all[k]).name,
        ) by {
            assert(valid_name(profiles[k].name));
        }
        assert forall|a: int, b: int| 0 <= a < b < all.len() implies (#[trigger] all[a]).id != (
        #[trigger] all[b]).id && all[a].name != all[b].name && all[a].server_node_id
            != all[b].server_node_id by {
            assert(profiles[a].id != profiles[b].id);
            assert(fresh[a].profile != fresh[b].profile);
        }
    }
    law_rules_are_those_of_screening(all);
    assert(portable_part(all[i]).forwards == portable_part(profiles[i]).forwards);
}

} // verus!
