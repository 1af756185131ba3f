//! What the stored document and the export file promise, field by field.

use vstd::prelude::*;
use vstd::string::*;

use crate::config::{AuthKeyView, ProfileView};
use crate::merge::FreshIdsView;
use crate::portable::{exported, imported_all, PortableProfileView};
use crate::roster::screened;
use crate::store::{
    dev_config, loaded, opened, saved, screened_keys, with_secrets, DevConfigView, DocumentView,
    SecretLookupView,
};

verus! {

/// Whether a profile is another one with each of its forwards switched off.
pub open spec fn is_off(p: ProfileView, q: ProfileView) -> bool {
    &&& p.id == q.id && p.name == q.name && p.server_node_id == q.server_node_id
    &&& p.auth_key_id == q.auth_key_id && p.relay_auth_token == q.relay_auth_token
    &&& p.socks_port == q.socks_port && p.http_port == q.http_port
    &&& p.relay_urls == q.relay_urls
    &&& p.forwards.len() == q.forwards.len()
    &&& forall|k: int|
        0 <= k < q.forwards.len() ==> {
            let (f, g) = (#[trigger] p.forwards[k], q.forwards[k]);
            &&& !f.enabled
            &&& f.id == g.id && f.label == g.label && f.local_port == g.local_port
            &&& f.remote_host == g.remote_host && f.remote_port == g.remote_port
        }
}

/// The document holds every key and every profile, in order: the keys with their secrets only in
/// a development file, the profiles with their forwards switched off.
pub proof fn law_document_holds_everything(
    keys: Seq<AuthKeyView>,
    profiles: Seq<ProfileView>,
    inline: bool,
)
    ensures
        ({
            let d = saved(keys, profiles, inline);
            &&& d.keys.len() == keys.len()
            &&& forall|i: int|
                0 <= i < keys.len() ==> {
                    let k = #[trigger] d.keys[i];
                    &&& k.id == keys[i].id && k.name == keys[i].name
                    &&& k.public_key == keys[i].public_key
                    &&& inline ==> k.secret == Some(keys[i].secret)
                    &&& !inline ==> k.secret is None
                }
            &&& d.profiles.len() == profiles.len()
            &&& forall|i: int|
                0 <= i < profiles.len() ==> is_off(#[trigger] d.profiles[i], profiles[i])
        }),
{
}

/// Opening a document gives every key and every profile that it holds, in order. A secret is taken
/// from it only in a development file, and no forward comes back switched on. Without a document
/// there is nothing.
pub proof fn law_opening_gives_everything(d: DocumentView, inline: bool)
    ensures
        opened(None, inline).keys.len() == 0 && opened(None, inline).profiles.len() == 0,
        ({
            let s = opened(Some(d), inline);
            &&& s.keys.len() == d.keys.len()
            &&& forall|i: int|
                0 <= i < d.keys.len() ==> {
                    let k = #[trigger] s.keys[i];
                    &&& k.id == d.keys[i].id && k.name == d.keys[i].name
                    &&& k.public_key == d.keys[i].public_key
                    &&& inline && d.keys[i].secret is Some ==> k.secret == d.keys[i].secret->0
                    &&& !inline || d.keys[i].secret is None ==> k.secret.len() == 0
                }
            &&& s.profiles.len() == d.profiles.len()
            &&& forall|i: int|
                0 <= i < d.profiles.len() ==> is_off(#[trigger] s.profiles[i], d.profiles[i])
        }),
{
}

/// The secrets that were looked up go to their keys, in order; a key whose secret is missing stays
/// without. The first lookup that failed is told instead.
pub proof fn law_secrets_go_to_their_keys(
    keys: Seq<AuthKeyView>,
    lookups: Seq<SecretLookupView>,
    i: int,
)
    requires
        lookups.len() >= keys.len(),
    ensures
        ({
            let r = with_secrets(keys, lookups);
            &&& r is Err <==> exists|j: int| 0 <= j < keys.len() && (#[trigger] lookups[j]) is Failed
            &&& r is Ok ==> r->Ok_0.len() == keys.len()
            &&& r is Ok && 0 <= i < keys.len() ==> {
                let k = r->Ok_0[i];
                &&& k.id == keys[i].id && k.name == keys[i].name
                &&& k.public_key == keys[i].public_key
                &&& lookups[i] is Found ==> k.secret == lookups[i]->Found_0
                &&& lookups[i] is Missing ==> k.secret == keys[i].secret
            }
            &&& 0 <= i < keys.len() && lookups[i] is Failed && (forall|j: int|
                0 <= j < i ==> (#[trigger] lookups[j]) !is Failed) ==> r == Err::<
                Seq<AuthKeyView>,
                Seq<char>,
            >(lookups[i]->Failed_0)
        }),
    decreases keys.len(),
{
    if keys.len() > 0 {
        let front = keys.drop_last();
        let last = keys.len() - 1;
        law_secrets_go_to_their_keys(front, lookups, i);
        if i == last && (forall|j: int| 0 <= j < i ==> (#[trigger] lookups[j]) !is Failed) {
            if with_secrets(front, lookups) is Err {
                let j = choose|j: int| 0 <= j < front.len() && (#[trigger] lookups[j]) is Failed;
                assert(lookups[j] !is Failed);
            }
        }
        if with_secrets(front, lookups) is Err {
            let j = choose|j: int| 0 <= j < front.len() && (#[trigger] lookups[j]) is Failed;
            assert(lookups[j] is Failed && 0 <= j < keys.len());
        } else if lookups[last] is Failed {
            assert(lookups[last] is Failed && 0 <= last < keys.len());
        } else {
            assert forall|j: int| 0 <= j < keys.len() implies (#[trigger] lookups[j]) !is Failed by {
                if j < front.len() {
                    assert(lookups[j] !is Failed);
                }
            }
        }
    }
}

/// Loading screens the keys and the profiles of the document. From a development file that is all;
/// otherwise the secrets are put to the keys that are left.
pub proof fn law_loading_screens_and_fills(
    doc: Option<DocumentView>,
    inline: bool,
    lookups: Seq<SecretLookupView>,
)
    ensures
        screened_keys(doc, inline) == screened(opened(doc, inline).keys),
        loaded(doc, inline, lookups) is Ok <==> inline || with_secrets(
            screened_keys(doc, inline),
            lookups,
        ) is Ok,
        loaded(doc, inline, lookups) matches Ok(s) ==> {
            &&& s.profiles == screened(opened(doc, inline).profiles)
            &&& inline ==> s.keys == screened(opened(doc, inline).keys)
            &&& !inline ==> with_secrets(screened(opened(doc, inline).keys), lookups) == Ok::<
                Seq<AuthKeyView>,
                Seq<char>,
            >(s.keys)
        },
        loaded(doc, inline, lookups) matches Err(e) ==> with_secrets(
            screened(opened(doc, inline).keys),
            lookups,
        ) == Err::<Seq<AuthKeyView>, Seq<char>>(e),
{
}

/// A development file is off where its variable is missing or empty, has its usual place for `1`
/// and for `true`, and otherwise the place that the variable gives.
pub proof fn law_dev_config_by_value(value: Seq<char>)
    ensures
        dev_config(None) is Off,
        value.len() == 0 ==> dev_config(Some(value)) is Off,
        value == seq!['1'] || value == seq!['t', 'r', 'u', 'e'] ==> dev_config(
            Some(value),
        ) is DefaultPath,
        value.len() > 0 && value != seq!['1'] && value != seq!['t', 'r', 'u', 'e'] ==> dev_config(
            Some(value),
        ) == DevConfigView::Path(value),
{
    reveal_strlit("1");
    reveal_strlit("true");
    assert("1"@ == seq!['1']);
    assert("true"@ == seq!['t', 'r', 'u', 'e']);
}

/// An export holds the settings of a profile and its forwards, in order. It holds no id, no key
/// and no relay token.
pub proof fn law_export_holds_the_settings(p: ProfileView)
    ensures
        ({
            let e = exported(p);
            &&& e.name == p.name && e.server_node_id == p.server_node_id
            &&& e.socks_port == p.socks_port && e.http_port == p.http_port
            &&& e.relay_urls == p.relay_urls
            &&& e.id is None && e.auth_key_id is None && e.relay_auth_token is None
            &&& e.forwards.len() == p.forwards.len()
            &&& forall|k: int|
                0 <= k < p.forwards.len() ==> {
                    let (f, g) = (#[trigger] e.forwards[k], p.forwards[k]);
                    &&& f.id is None && f.label == g.label && f.local_port == g.local_port
                    &&& f.remote_host == g.remote_host && f.remote_port == g.remote_port
                }
        }),
{
}

/// An import has the settings of the file and its forwards, in order and switched off. It keeps
/// the ids that the file gives and gets new ones for the others; a key and a relay token are not
/// taken from it.
pub proof fn law_import_takes_the_settings(
    file: Seq<PortableProfileView>,
    fresh: Seq<FreshIdsView>,
    i: int,
)
    requires
        0 <= i < file.len(),
        fresh.len() >= file.len(),
    ensures
        imported_all(file, fresh).len() == file.len(),
        ({
            let (p, e) = (imported_all(file, fresh)[i], file[i]);
            &&& p.name == e.name && p.server_node_id == e.server_node_id
            &&& p.socks_port == e.socks_port && p.http_port == e.http_port
            &&& p.relay_urls == e.relay_urls
            &&& p.auth_key_id.len() == 0 && p.relay_auth_token is None
            &&& e.id is Some ==> p.id == e.id->0
            &&& e.id is None ==> p.id == fresh[i].profile
            &&& p.forwards.len() == e.forwards.len()
            &&& forall|k: int|
                0 <= k < e.forwards.len() ==> {
                    let (f, g) = (#[trigger] p.forwards[k], e.forwards[k]);
                    &&& !f.enabled
                    &&& f.label == g.label && f.local_port == g.local_port
                    &&& f.remote_host == g.remote_host && f.remote_port == g.remote_port
                    &&& g.id is Some ==> f.id == g.id->0
                    &&& g.id is None ==> f.id == fresh[i].forwards[k]
                }
        }),
{
}

} // verus!
