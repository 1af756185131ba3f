//! What a refresh promises of the forwards whose setup failed.

use vstd::prelude::*;

use crate::app::{refreshed, set_forwards, step, with_errors, AppView, NewIdsView};
use crate::app_laws::lemma_refreshed;
use crate::app_port_laws::forward_ids_apart;
use crate::config::ProfileView;
use crate::forms::profile_with_id;
use crate::form_laws::lemma_profile_at;
use crate::forward::{ForwardStateView, ForwardStatusView};
use crate::forwards::{failed_off, failure_of, failures, PortForwardView};
use crate::merge::profiles_ok;
use crate::message::{EffectView, Message};
use crate::session::{RoutesView, SnapshotView};

verus! {

/// Whether no two statuses are of the same forward.
pub open spec fn statuses_apart(statuses: Seq<ForwardStatusView>) -> bool {
    forall|i: int, j: int|
        0 <= i < j < statuses.len() ==> (#[trigger] statuses[i]).id != (#[trigger] statuses[j]).id
}

/// Whether the status at `i` says that the forward `f` failed, for the given reason.
pub open spec fn says_failed(
    statuses: Seq<ForwardStatusView>,
    i: int,
    f: PortForwardView,
    reason: Seq<char>,
) -> bool {
    &&& 0 <= i < statuses.len()
    &&& statuses[i].id == f.id
    &&& statuses[i].state == ForwardStateView::Failed(reason)
}

/// Whether some status says that the forward `f` failed.
pub open spec fn is_said_to_have_failed(
    statuses: Seq<ForwardStatusView>,
    f: PortForwardView,
) -> bool {
    exists|i: int, reason: Seq<char>| #[trigger] says_failed(statuses, i, f, reason)
}

/// Whether a reported pair is the id of the forward at `j`, which is switched on, and the reason
/// that the status at `i` gives for its failure.
pub open spec fn is_report(
    forwards: Seq<PortForwardView>,
    statuses: Seq<ForwardStatusView>,
    j: int,
    i: int,
    pair: (Seq<char>, Seq<char>),
) -> bool {
    &&& 0 <= j < forwards.len()
    &&& forwards[j].enabled
    &&& pair.0 == forwards[j].id
    &&& says_failed(statuses, i, forwards[j], pair.1)
}

/// Whether a reported pair is that of some forward which is switched on and said to have failed.
pub open spec fn is_reported(
    forwards: Seq<PortForwardView>,
    statuses: Seq<ForwardStatusView>,
    pair: (Seq<char>, Seq<char>),
) -> bool {
    exists|j: int, i: int| #[trigger] is_report(forwards, statuses, j, i, pair)
}

/// The first status of a forward decides whether, and why, it failed; a forward without a status
/// has not failed.
proof fn lemma_failure_of(statuses: Seq<ForwardStatusView>, id: Seq<char>)
    ensures
        match failure_of(statuses, id) {
            Some(reason) => exists|i: int|
                0 <= i < statuses.len() && (#[trigger] statuses[i]).id == id && statuses[i].state
                    == ForwardStateView::Failed(reason) && forall|j: int|
                    0 <= j < i ==> (#[trigger] statuses[j]).id != id,
            None => forall|i: int|
                0 <= i < statuses.len() && (#[trigger] statuses[i]).id == id && (forall|j: int|
                    0 <= j < i ==> (#[trigger] statuses[j]).id != id) ==> statuses[i].state
                    !is Failed,
        },
    decreases statuses.len(),
{
    if statuses.len() > 0 {
        let rest = statuses.drop_first();
        assert(forall|k: int| 0 < k < statuses.len() ==> #[trigger] statuses[k] == rest[k - 1]);
        if statuses[0].id == id {
            assert(statuses[0].id == id);
        } else {
            lemma_failure_of(rest, id);
            match failure_of(rest, id) {
                Some(reason) => {
                    let i = choose|i: int|
                        0 <= i < rest.len() && (#[trigger] rest[i]).id == id && rest[i].state
                            == ForwardStateView::Failed(reason) && forall|j: int|
                            0 <= j < i ==> (#[trigger] rest[j]).id != id;
                    assert(statuses[i + 1].id == id);
                    assert forall|j: int| 0 <= j < i + 1 implies (#[trigger] statuses[j]).id
                        != id by {
                        if j > 0 {
                            assert(rest[j - 1].id != id);
                        }
                    }
                },
                None => {
                    assert forall|i: int|
                        0 <= i < statuses.len() && (#[trigger] statuses[i]).id == id && (forall|
                            j: int,
                        |
                            0 <= j < i ==> (#[trigger] statuses[j]).id
                                != id) implies statuses[i].state !is Failed by {
                        assert(rest[i - 1].id == id);
                        assert forall|j: int| 0 <= j < i - 1 implies (#[trigger] rest[j]).id
                            != id by {
                            assert(statuses[j + 1].id != id);
                        }
                    }
                },
            }
        }
    }
}

/// Wherever in the list of statuses a forward's status stands, it says whether the forward failed,
/// and why.
pub proof fn law_every_status_counts(
    statuses: Seq<ForwardStatusView>,
    i: int,
    f: PortForwardView,
)
    requires
        statuses_apart(statuses),
        0 <= i < statuses.len(),
        statuses[i].id == f.id,
    ensures
        failure_of(statuses, f.id) == (match statuses[i].state {
            ForwardStateView::Failed(reason) => Some(reason),
            _ => None,
        }),
        is_said_to_have_failed(statuses, f) <==> statuses[i].state is Failed,
{
    lemma_failure_of(statuses, f.id);
    assert forall|j: int| 0 <= j < i implies (#[trigger] statuses[j]).id != f.id by {
        assert(statuses[j].id != statuses[i].id);
    }
    if let Some(reason) = failure_of(statuses, f.id) {
        let k = choose|k: int|
            0 <= k < statuses.len() && (#[trigger] statuses[k]).id == f.id && statuses[k].state
                == ForwardStateView::Failed(reason) && forall|j: int|
                0 <= j < k ==> (#[trigger] statuses[j]).id != f.id;
        if k > i {
            assert(statuses[i].id != f.id);
        }
        assert(k == i);
    }
    if let ForwardStateView::Failed(reason) = statuses[i].state {
        assert(says_failed(statuses, i, f, reason));
    } else {
        assert forall|k: int, reason: Seq<char>| !#[trigger] says_failed(statuses, k, f, reason) by {
            if says_failed(statuses, k, f, reason) {
                if k < i {
                    assert(statuses[k].id != statuses[i].id);
                } else if i < k {
                    assert(statuses[i].id != statuses[k].id);
                }
            }
        }
    }
}

proof fn lemma_failed_iff_said(statuses: Seq<ForwardStatusView>, f: PortForwardView)
    requires
        statuses_apart(statuses),
    ensures
        failure_of(statuses, f.id) is Some <==> is_said_to_have_failed(statuses, f),
        failure_of(statuses, f.id) matches Some(reason) ==> exists|i: int| #[trigger]
            says_failed(statuses, i, f, reason),
{
    lemma_failure_of(statuses, f.id);
    if let Some(reason) = failure_of(statuses, f.id) {
        let k = choose|k: int|
            0 <= k < statuses.len() && (#[trigger] statuses[k]).id == f.id && statuses[k].state
                == ForwardStateView::Failed(reason) && forall|j: int|
                0 <= j < k ==> (#[trigger] statuses[j]).id != f.id;
        assert(says_failed(statuses, k, f, reason));
    }
    if is_said_to_have_failed(statuses, f) {
        let (i, reason) = choose|i: int, reason: Seq<char>| #[trigger]
            says_failed(statuses, i, f, reason);
        law_every_status_counts(statuses, i, f);
    }
}

/// Exactly the forwards that are switched on and said to have failed are switched off; nothing
/// else of any forward changes. Each of them is reported, once and with its reason, and no other.
pub proof fn law_failed_forwards_are_switched_off(
    forwards: Seq<PortForwardView>,
    statuses: Seq<ForwardStatusView>,
    k: int,
)
    requires
        statuses_apart(statuses),
        0 <= k < forwards.len(),
    ensures
        failed_off(forwards, statuses).len() == forwards.len(),
        ({
            let (f, g) = (forwards[k], failed_off(forwards, statuses)[k]);
            &&& g.enabled == (f.enabled && !is_said_to_have_failed(statuses, f))
            &&& g.id == f.id && g.label == f.label && g.local_port == f.local_port
            &&& g.remote_host == f.remote_host && g.remote_port == f.remote_port
            &&& f.enabled ==> forall|i: int, reason: Seq<char>| #[trigger]
                says_failed(statuses, i, f, reason) ==> failures(forwards, statuses).contains(
                    (f.id, reason),
                )
        }),
        forall|n: int|
            0 <= n < failures(forwards, statuses).len() ==> is_reported(
                forwards,
                statuses,
                #[trigger] failures(forwards, statuses)[n],
            ),
{
    lemma_failed_iff_said(statuses, forwards[k]);
    lemma_failures(forwards, statuses);
    let f = forwards[k];
    if f.enabled {
        assert forall|i: int, reason: Seq<char>| #[trigger]
            says_failed(statuses, i, f, reason) implies failures(forwards, statuses).contains(
            (f.id, reason),
        ) by {
            law_every_status_counts(statuses, i, f);
        }
    }
    assert forall|n: int| 0 <= n < failures(forwards, statuses).len() implies is_reported(
        forwards,
        statuses,
        #[trigger] failures(forwards, statuses)[n],
    ) by {
        let pair = failures(forwards, statuses)[n];
        let j = choose|j: int| #[trigger] reports(forwards, statuses, j, pair);
        lemma_failed_iff_said(statuses, forwards[j]);
        let i = choose|i: int| #[trigger] says_failed(statuses, i, forwards[j], pair.1);
        assert(is_report(forwards, statuses, j, i, pair));
    }
}

spec fn reports(
    forwards: Seq<PortForwardView>,
    statuses: Seq<ForwardStatusView>,
    j: int,
    pair: (Seq<char>, Seq<char>),
) -> bool {
    &&& 0 <= j < forwards.len()
    &&& forwards[j].enabled
    &&& pair.0 == forwards[j].id
    &&& failure_of(statuses, forwards[j].id) == Some(pair.1)
}

spec fn is_from(
    forwards: Seq<PortForwardView>,
    statuses: Seq<ForwardStatusView>,
    pair: (Seq<char>, Seq<char>),
) -> bool {
    exists|j: int| #[trigger] reports(forwards, statuses, j, pair)
}

proof fn lemma_failures(forwards: Seq<PortForwardView>, statuses: Seq<ForwardStatusView>)
    ensures
        forall|k: int|
            0 <= k < forwards.len() && (#[trigger] forwards[k]).enabled ==> (failure_of(
                statuses,
                forwards[k].id,
            ) matches Some(reason) ==> failures(forwards, statuses).contains(
                (forwards[k].id, reason),
            )),
        forall|n: int|
            0 <= n < failures(forwards, statuses).len() ==> is_from(
                forwards,
                statuses,
                #[trigger] failures(forwards, statuses)[n],
            ),
    decreases forwards.len(),
{
    if forwards.len() > 0 {
        let front = forwards.drop_last();
        let before = failures(front, statuses);
        let after = failures(forwards, statuses);
        lemma_failures(front, statuses);
        assert(forwards[forwards.len() - 1] == forwards.last());
        assert forall|k: int| 0 <= k < forwards.len() && (
        #[trigger] forwards[k]).enabled implies (failure_of(
            statuses,
            forwards[k].id,
        ) matches Some(reason) ==> after.contains((forwards[k].id, reason))) by {
            if let Some(reason) = failure_of(statuses, forwards[k].id) {
                if k < front.len() {
                    assert(front[k].enabled);
                    let n = before.index_of((forwards[k].id, reason));
                    assert(before.contains((forwards[k].id, reason)));
                    assert(after[n] == (forwards[k].id, reason));
                } else {
                    assert(after[after.len() - 1] == (forwards[k].id, reason));
                }
            }
        }
        assert forall|n: int| 0 <= n < after.len() implies is_from(
            forwards,
            statuses,
            #[trigger] after[n],
        ) by {
            if n < before.len() {
                assert(after[n] == before[n]);
                let j = choose|j: int| #[trigger] reports(front, statuses, j, before[n]);
                assert(reports(forwards, statuses, j, after[n]));
            } else {
                assert(reports(forwards, statuses, forwards.len() - 1, after[n]));
            }
        }
    }
}

/// Errors with others added: one that is among those added is there, with the reason that came
/// last, and every other is as it was.
proof fn lemma_with_errors(
    errors: Map<Seq<char>, Seq<char>>,
    failed: Seq<(Seq<char>, Seq<char>)>,
    id: Seq<char>,
)
    ensures
        (forall|n: int| 0 <= n < failed.len() ==> (#[trigger] failed[n]).0 != id) ==> (with_errors(
            errors,
            failed,
        ).contains_key(id) <==> errors.contains_key(id)) && with_errors(errors, failed)[id]
            == errors[id],
        (exists|n: int| 0 <= n < failed.len() && (#[trigger] failed[n]).0 == id) ==> with_errors(
            errors,
            failed,
        ).contains_key(id) && failed.contains((id, with_errors(errors, failed)[id])),
    decreases failed.len(),
{
    if failed.len() > 0 {
        let front = failed.drop_last();
        lemma_with_errors(errors, front, id);
        assert(failed[failed.len() - 1] == failed.last());
        if failed.last().0 == id {
            assert(failed.contains(failed[failed.len() - 1]));
        } else {
            if exists|n: int| 0 <= n < failed.len() && (#[trigger] failed[n]).0 == id {
                let n = choose|n: int| 0 <= n < failed.len() && (#[trigger] failed[n]).0 == id;
                assert(front[n].0 == id);
                let pair = (id, with_errors(errors, front)[id]);
                let k = front.index_of(pair);
                assert(front.contains(pair));
                assert(failed[k] == pair);
            }
            if forall|n: int| 0 <= n < failed.len() ==> (#[trigger] failed[n]).0 != id {
                assert forall|n: int| 0 <= n < front.len() implies (#[trigger] front[n]).0
                    != id by {
                    assert(failed[n].0 != id);
                }
            }
        }
    }
}

/// The failures that a refresh finds in the profile at `j`.
spec fn failures_in(
    profiles: Seq<ProfileView>,
    snapshots: Map<Seq<char>, SnapshotView>,
    j: int,
) -> Seq<(Seq<char>, Seq<char>)> {
    if snapshots.contains_key(profiles[j].id) {
        failures(profiles[j].forwards, snapshots[profiles[j].id].forwards)
    } else {
        Seq::empty()
    }
}

spec fn fails_in(
    profiles: Seq<ProfileView>,
    snapshots: Map<Seq<char>, SnapshotView>,
    j: int,
    id: Seq<char>,
) -> bool {
    exists|n: int|
        0 <= n < failures_in(profiles, snapshots, j).len() && (#[trigger] failures_in(
            profiles,
            snapshots,
            j,
        )[n]).0 == id
}

proof fn lemma_refresh_errors(
    profiles: Seq<ProfileView>,
    snapshots: Map<Seq<char>, SnapshotView>,
    errors: Map<Seq<char>, Seq<char>>,
    caches: Map<Seq<char>, RoutesView>,
    id: Seq<char>,
)
    ensures
        ({
            let r = refreshed(profiles, snapshots, errors, caches);
            &&& (forall|j: int| 0 <= j < profiles.len() ==> !#[trigger] fails_in(profiles, snapshots, j, id))
                ==> (r.errors.contains_key(id) <==> errors.contains_key(id)) && r.errors[id]
                == errors[id]
            &&& (exists|j: int| 0 <= j < profiles.len() && #[trigger] fails_in(profiles, snapshots, j, id))
                ==> r.errors.contains_key(id) && exists|j: int|
                0 <= j < profiles.len() && #[trigger] fails_in(profiles, snapshots, j, id)
                    && failures_in(profiles, snapshots, j).contains((id, r.errors[id]))
        }),
    decreases profiles.len(),
{
    if profiles.len() > 0 {
        let front = profiles.drop_last();
        let last = profiles.len() - 1;
        let before = refreshed(front, snapshots, errors, caches);
        let r = refreshed(profiles, snapshots, errors, caches);
        lemma_refresh_errors(front, snapshots, errors, caches, id);
        let found = failures_in(profiles, snapshots, last);
        assert(profiles[last] == profiles.last());
        lemma_with_errors(before.errors, found, id);
        assert(r.errors == with_errors(before.errors, found)) by {
            if !snapshots.contains_key(profiles[last].id) {
                assert(with_errors(before.errors, found) == before.errors);
            }
        }
        assert forall|j: int| 0 <= j < front.len() implies #[trigger] fails_in(
            profiles,
            snapshots,
            j,
            id,
        ) == fails_in(front, snapshots, j, id) by {
            assert(failures_in(profiles, snapshots, j) == failures_in(front, snapshots, j));
        }
        if fails_in(profiles, snapshots, last, id) {
            let n = choose|n: int|
                0 <= n < failures_in(profiles, snapshots, last).len() && (
                #[trigger] failures_in(profiles, snapshots, last)[n]).0 == id;
            assert(found[n].0 == id);
        } else {
            assert forall|n: int| 0 <= n < found.len() implies (#[trigger] found[n]).0 != id by {
                assert(failures_in(profiles, snapshots, last)[n].0 != id);
            }
            if exists|j: int|
                0 <= j < profiles.len() && #[trigger] fails_in(profiles, snapshots, j, id) {
                let j = choose|j: int|
                    0 <= j < profiles.len() && #[trigger] fails_in(profiles, snapshots, j, id);
                assert(fails_in(front, snapshots, j, id));
                let k = choose|k: int|
                    0 <= k < front.len() && #[trigger] fails_in(front, snapshots, k, id)
                        && failures_in(front, snapshots, k).contains((id, before.errors[id]));
                assert(fails_in(profiles, snapshots, k, id));
                assert(failures_in(profiles, snapshots, k) == failures_in(front, snapshots, k));
            }
        }
        if forall|j: int| 0 <= j < profiles.len() ==> !#[trigger] fails_in(profiles, snapshots, j, id) {
            assert forall|j: int| 0 <= j < front.len() implies !#[trigger] fails_in(
                front,
                snapshots,
                j,
                id,
            ) by {
                assert(!fails_in(profiles, snapshots, j, id));
            }
            assert(!fails_in(profiles, snapshots, last, id));
        }
    }
}

proof fn lemma_failed_in(
    profiles: Seq<ProfileView>,
    snapshots: Map<Seq<char>, SnapshotView>,
    errors: Map<Seq<char>, Seq<char>>,
    caches: Map<Seq<char>, RoutesView>,
    j: int,
)
    requires
        0 <= j < profiles.len(),
        failures_in(profiles, snapshots, j).len() > 0,
    ensures
        refreshed(profiles, snapshots, errors, caches).failed_in.contains(profiles[j].id),
    decreases profiles.len(),
{
    let front = profiles.drop_last();
    let before = refreshed(front, snapshots, errors, caches).failed_in;
    let after = refreshed(profiles, snapshots, errors, caches).failed_in;
    assert(profiles[profiles.len() - 1] == profiles.last());
    if j < front.len() {
        assert(failures_in(front, snapshots, j) == failures_in(profiles, snapshots, j));
        lemma_failed_in(front, snapshots, errors, caches, j);
        let n = before.index_of(profiles[j].id);
        assert(after[n] == profiles[j].id);
    } else {
        assert(after[after.len() - 1] == profiles[j].id);
    }
}

proof fn lemma_failed_in_has_failures(
    profiles: Seq<ProfileView>,
    snapshots: Map<Seq<char>, SnapshotView>,
    errors: Map<Seq<char>, Seq<char>>,
    caches: Map<Seq<char>, RoutesView>,
    id: Seq<char>,
)
    requires
        refreshed(profiles, snapshots, errors, caches).failed_in.contains(id),
    ensures
        exists|j: int|
            0 <= j < profiles.len() && (#[trigger] profiles[j]).id == id && failures_in(
                profiles,
                snapshots,
                j,
            ).len() > 0,
    decreases profiles.len(),
{
    if profiles.len() > 0 {
        let front = profiles.drop_last();
        let before = refreshed(front, snapshots, errors, caches).failed_in;
        let after = refreshed(profiles, snapshots, errors, caches).failed_in;
        let last = profiles.len() - 1;
        assert(profiles[last] == profiles.last());
        let n = after.index_of(id);
        if n < before.len() {
            assert(before[n] == id);
            lemma_failed_in_has_failures(front, snapshots, errors, caches, id);
            let j = choose|j: int|
                0 <= j < front.len() && (#[trigger] front[j]).id == id && failures_in(
                    front,
                    snapshots,
                    j,
                ).len() > 0;
            assert(profiles[j].id == id);
            assert(failures_in(front, snapshots, j) == failures_in(profiles, snapshots, j));
        } else {
            assert(profiles[last].id == id);
        }
    }
}

proof fn lemma_set_forwards(profiles: Seq<ProfileView>, ids: Seq<Seq<char>>, n: int, j: int)
    requires
        0 <= n < ids.len(),
        0 <= j < profiles.len(),
        profiles[j].id == ids[n],
        forall|a: int, b: int|
            0 <= a < b < profiles.len() ==> (#[trigger] profiles[a]).id != (
            #[trigger] profiles[b]).id,
    ensures
        set_forwards(profiles, ids).contains(
            EffectView::SetForwards { profile_id: ids[n], forwards: profiles[j].forwards },
        ),
    decreases ids.len(),
{
    let front = ids.drop_last();
    let before = set_forwards(profiles, front);
    let after = set_forwards(profiles, ids);
    let e = EffectView::SetForwards { profile_id: ids[n], forwards: profiles[j].forwards };
    if n < front.len() {
        lemma_set_forwards(profiles, front, n, j);
        let k = before.index_of(e);
        assert(after[k] == e);
    } else {
        lemma_profile_at(profiles, ids[n]);
        let p = profile_with_id(profiles, ids[n])->0;
        let k = choose|k: int|
            0 <= k < profiles.len() && #[trigger] profiles[k] == p && p.id == ids[n] && (forall|
                m: int,
            |
                0 <= m < k ==> (#[trigger] profiles[m]).id != ids[n]);
        if k < j {
            assert(profiles[k].id != profiles[j].id);
        }
        assert(k == j);
        assert(after[after.len() - 1] == e);
    }
}

/// A refresh switches a forward off exactly if it is switched on and a status of its profile's
/// session, wherever it stands among them, says that it failed. Its reason is then kept, its
/// session gets the forwards as they now are, and all is stored. A forward that is not said to
/// have failed stays as it is.
pub proof fn law_refresh_finds_every_failure(
    s: AppView,
    m: Message,
    fresh: NewIdsView,
    snapshots: Map<Seq<char>, SnapshotView>,
    j: int,
    k: int,
)
    requires
        m is Tick || m is SetupTray,
        snapshots == (match m {
            Message::Tick(o) => o.snapshots@,
            Message::SetupTray(o) => o.snapshots@,
            _ => Map::empty(),
        }),
        profiles_ok(s.profiles),
        forward_ids_apart(s.profiles),
        forall|id: Seq<char>| #[trigger]
            snapshots.contains_key(id) ==> statuses_apart(snapshots[id].forwards),
        0 <= j < s.profiles.len(),
        0 <= k < s.profiles[j].forwards.len(),
    ensures
        ({
            let (t, effects) = step(s, m, fresh);
            let p = s.profiles[j];
            let (f, g) = (p.forwards[k], t.profiles[j].forwards[k]);
            let known = snapshots[p.id].forwards;
            let failed = f.enabled && snapshots.contains_key(p.id) && is_said_to_have_failed(
                known,
                f,
            );
            &&& t.profiles.len() == s.profiles.len()
            &&& t.profiles[j].forwards.len() == p.forwards.len()
            &&& g.enabled == (f.enabled && !failed)
            &&& g.id == f.id && g.label == f.label && g.local_port == f.local_port
            &&& g.remote_host == f.remote_host && g.remote_port == f.remote_port
            &&& failed ==> {
                &&& t.forward_errors.contains_key(f.id)
                &&& exists|i: int| #[trigger] says_failed(known, i, f, t.forward_errors[f.id])
                &&& effects.contains(
                    EffectView::SetForwards {
                        profile_id: p.id,
                        forwards: t.profiles[j].forwards,
                    },
                )
                &&& effects.contains(EffectView::Persist)
            }
            &&& !failed ==> {
                &&& t.forward_errors.contains_key(f.id) <==> s.forward_errors.contains_key(f.id)
                &&& t.forward_errors[f.id] == s.forward_errors[f.id]
            }
        }),
{
    let (t, effects) = step(s, m, fresh);
    let p = s.profiles[j];
    let f = p.forwards[k];
    let known = snapshots[p.id].forwards;
    let r = refreshed(s.profiles, snapshots, s.forward_errors, s.routed_caches);
    lemma_refreshed(s.profiles, snapshots, s.forward_errors, s.routed_caches);
    lemma_refresh_errors(s.profiles, snapshots, s.forward_errors, s.routed_caches, f.id);
    assert(t.profiles == r.profiles && t.forward_errors == r.errors);
    if snapshots.contains_key(p.id) {
        law_failed_forwards_are_switched_off(p.forwards, known, k);
        lemma_failed_iff_said(known, f);
        lemma_failures(p.forwards, known);
    }
    let failed = f.enabled && snapshots.contains_key(p.id) && is_said_to_have_failed(known, f);
    // Only this profile can fail for this forward.
    assert forall|i: int| 0 <= i < s.profiles.len() && #[trigger] fails_in(
        s.profiles,
        snapshots,
        i,
        f.id,
    ) implies i == j && failed by {
        let q = s.profiles[i];
        let n = choose|n: int|
            0 <= n < failures_in(s.profiles, snapshots, i).len() && (#[trigger] failures_in(
                s.profiles,
                snapshots,
                i,
            )[n]).0 == f.id;
        lemma_failures(q.forwards, snapshots[q.id].forwards);
        assert(failures(q.forwards, snapshots[q.id].forwards)[n].0 == f.id);
        let l = choose|l: int| #[trigger]
            reports(
                q.forwards,
                snapshots[q.id].forwards,
                l,
                failures(q.forwards, snapshots[q.id].forwards)[n],
            );
        if i != j || l != k {
            assert(s.profiles[i].forwards[l].id != s.profiles[j].forwards[k].id);
        }
    }
    if failed {
        let reason = failure_of(known, f.id)->0;
        let found = failures_in(s.profiles, snapshots, j);
        assert(found.contains((f.id, reason)));
        let n = found.index_of((f.id, reason));
        assert(failures_in(s.profiles, snapshots, j)[n].0 == f.id);
        assert(fails_in(s.profiles, snapshots, j, f.id));
        let i = choose|i: int|
            0 <= i < s.profiles.len() && #[trigger] fails_in(s.profiles, snapshots, i, f.id)
                && failures_in(s.profiles, snapshots, i).contains((f.id, r.errors[f.id]));
        assert(i == j);
        let e = found.index_of((f.id, r.errors[f.id]));
        assert(failures(p.forwards, known)[e] == (f.id, r.errors[f.id]));
        let (a, b) = choose|a: int, b: int| #[trigger]
            is_report(p.forwards, known, a, b, failures(p.forwards, known)[e]);
        assert(says_failed(known, b, f, r.errors[f.id]));
        lemma_failed_in(s.profiles, snapshots, s.forward_errors, s.routed_caches, j);
        let at = r.failed_in.index_of(p.id);
        assert(r.profiles[j].id == p.id);
        assert forall|x: int, y: int| 0 <= x < y < r.profiles.len() implies (
        #[trigger] r.profiles[x]).id != (#[trigger] r.profiles[y]).id by {
            assert(s.profiles[x].id != s.profiles[y].id);
        }
        lemma_set_forwards(r.profiles, r.failed_in, at, j);
        let sets = set_forwards(r.profiles, r.failed_in);
        let told = EffectView::SetForwards { profile_id: p.id, forwards: r.profiles[j].forwards };
        let c = sets.index_of(told);
        let shift: int = if m is SetupTray {
            2
        } else {
            0
        };
        assert(effects[c + shift] == told);
        assert(effects[sets.len() + shift] == EffectView::Persist);
    }
}

/// A refresh takes over what was polled: the snapshots, the log's revision, and the rules that
/// each profile's server pushed. Where no forward failed, no session is told anything and nothing
/// is stored; the log is read exactly if it has changed, and the tray is brought up to date last.
/// Everything else stays as it is.
pub proof fn law_refresh_takes_over_what_was_polled(
    s: AppView,
    m: Message,
    fresh: NewIdsView,
    snapshots: Map<Seq<char>, SnapshotView>,
    revision: u64,
    j: int,
)
    requires
        match m {
            Message::Tick(o) => snapshots == o.snapshots@ && revision == o.log_revision,
            Message::SetupTray(o) => snapshots == o.snapshots@ && revision == o.log_revision,
            _ => false,
        },
        0 <= j < s.profiles.len(),
    ensures
        ({
            let (t, effects) = step(s, m, fresh);
            &&& t.snapshots == snapshots
            &&& t.log_revision == revision
            &&& effects.len() > 0 && effects.last() == EffectView::SyncTray
            &&& effects.contains(EffectView::ReadLogs) <==> revision != s.log_revision
            &&& m is SetupTray ==> effects[0] == EffectView::SetActivationPolicy(s.window is Some)
                && effects[1] == EffectView::CreateTray
            &&& t.profiles[j] == (ProfileView {
                forwards: t.profiles[j].forwards,
                ..s.profiles[j]
            })
            &&& !snapshots.contains_key(s.profiles[j].id) ==> t.profiles[j] == s.profiles[j]
            &&& t == (AppView {
                snapshots: t.snapshots,
                log_revision: t.log_revision,
                profiles: t.profiles,
                forward_errors: t.forward_errors,
                routed_caches: t.routed_caches,
                ..s
            })
        }),
{
    let (t, effects) = step(s, m, fresh);
    let r = refreshed(s.profiles, snapshots, s.forward_errors, s.routed_caches);
    lemma_refreshed(s.profiles, snapshots, s.forward_errors, s.routed_caches);
    let sets = set_forwards(r.profiles, r.failed_in);
    lemma_only_set_forwards(r.profiles, r.failed_in);
    let shift: int = if m is SetupTray {
        2
    } else {
        0
    };
    let at: int = shift + sets.len() + (if r.failed_in.len() > 0 {
        1int
    } else {
        0
    });
    if revision != s.log_revision {
        assert(effects[at] == EffectView::ReadLogs);
    } else {
        assert forall|i: int| 0 <= i < effects.len() implies effects[i] != EffectView::ReadLogs by {
            if shift <= i < shift + sets.len() {
                assert(effects[i] == sets[i - shift]);
            }
        }
    }
}

proof fn lemma_only_set_forwards(profiles: Seq<ProfileView>, ids: Seq<Seq<char>>)
    ensures
        forall|i: int|
            0 <= i < set_forwards(profiles, ids).len() ==> (#[trigger] set_forwards(
                profiles,
                ids,
            )[i]) is SetForwards,
    decreases ids.len(),
{
    if ids.len() > 0 {
        lemma_only_set_forwards(profiles, ids.drop_last());
    }
}

proof fn lemma_caches(
    profiles: Seq<ProfileView>,
    snapshots: Map<Seq<char>, SnapshotView>,
    errors: Map<Seq<char>, Seq<char>>,
    caches: Map<Seq<char>, RoutesView>,
    id: Seq<char>,
)
    ensures
        ({
            let r = refreshed(profiles, snapshots, errors, caches).caches;
            let there = exists|j: int| 0 <= j < profiles.len() && (#[trigger] profiles[j]).id == id;
            &&& there && snapshots.contains_key(id) ==> r.contains_key(id) && r[id]
                == snapshots[id].routes
            &&& !(there && snapshots.contains_key(id)) ==> (r.contains_key(id)
                <==> caches.contains_key(id)) && r[id] == caches[id]
        }),
    decreases profiles.len(),
{
    if profiles.len() > 0 {
        let front = profiles.drop_last();
        lemma_caches(front, snapshots, errors, caches, id);
        assert(profiles[profiles.len() - 1] == profiles.last());
        if exists|j: int| 0 <= j < front.len() && (#[trigger] front[j]).id == id {
            let j = choose|j: int| 0 <= j < front.len() && (#[trigger] front[j]).id == id;
            assert(profiles[j].id == id);
        }
        if exists|j: int| 0 <= j < profiles.len() && (#[trigger] profiles[j]).id == id {
            let j = choose|j: int| 0 <= j < profiles.len() && (#[trigger] profiles[j]).id == id;
            if j < front.len() {
                assert(front[j].id == id);
            }
        }
    }
}

/// A refresh keeps, for each profile with a snapshot, the rules that its server pushed. Those of
/// every other profile stay as they were, so a session that is gone leaves its rules behind.
pub proof fn law_refresh_keeps_pushed_rules(
    s: AppView,
    m: Message,
    fresh: NewIdsView,
    snapshots: Map<Seq<char>, SnapshotView>,
    id: Seq<char>,
)
    requires
        match m {
            Message::Tick(o) => snapshots == o.snapshots@,
            Message::SetupTray(o) => snapshots == o.snapshots@,
            _ => false,
        },
    ensures
        ({
            let t = step(s, m, fresh).0;
            let there = exists|j: int|
                0 <= j < s.profiles.len() && (#[trigger] s.profiles[j]).id == id;
            &&& there && snapshots.contains_key(id) ==> t.routed_caches.contains_key(id)
                && t.routed_caches[id] == snapshots[id].routes
            &&& !(there && snapshots.contains_key(id)) ==> (t.routed_caches.contains_key(id)
                <==> s.routed_caches.contains_key(id)) && t.routed_caches[id]
                == s.routed_caches[id]
        }),
{
    lemma_caches(s.profiles, snapshots, s.forward_errors, s.routed_caches, id);
}

/// Where no forward of any profile is said to have failed, a refresh leaves every profile and
/// every error as it is, tells no session anything and stores nothing.
pub proof fn law_quiet_refresh_changes_nothing(
    s: AppView,
    m: Message,
    fresh: NewIdsView,
    snapshots: Map<Seq<char>, SnapshotView>,
    revision: u64,
)
    requires
        match m {
            Message::Tick(o) => snapshots == o.snapshots@ && revision == o.log_revision,
            _ => false,
        },
        forall|id: Seq<char>| #[trigger]
            snapshots.contains_key(id) ==> statuses_apart(snapshots[id].forwards),
        forall|j: int, k: int|
            0 <= j < s.profiles.len() && 0 <= k < s.profiles[j].forwards.len()
                && snapshots.contains_key(s.profiles[j].id) && (
            #[trigger] s.profiles[j].forwards[k]).enabled ==> !is_said_to_have_failed(
                snapshots[s.profiles[j].id].forwards,
                s.profiles[j].forwards[k],
            ),
    ensures
        ({
            let (t, effects) = step(s, m, fresh);
            &&& t.profiles == s.profiles
            &&& t.forward_errors == s.forward_errors
            &&& effects == (if revision != s.log_revision {
                seq![EffectView::ReadLogs, EffectView::SyncTray]
            } else {
                seq![EffectView::SyncTray]
            })
        }),
{
    let r = refreshed(s.profiles, snapshots, s.forward_errors, s.routed_caches);
    assert forall|j: int| 0 <= j < s.profiles.len() implies #[trigger] failures_in(
        s.profiles,
        snapshots,
        j,
    ).len() == 0 && (snapshots.contains_key(s.profiles[j].id) ==> failed_off(
        s.profiles[j].forwards,
        snapshots[s.profiles[j].id].forwards,
    ) == s.profiles[j].forwards) by {
        if snapshots.contains_key(s.profiles[j].id) {
            let (forwards, known) = (
                s.profiles[j].forwards,
                snapshots[s.profiles[j].id].forwards,
            );
            lemma_failures(forwards, known);
            if failures(forwards, known).len() > 0 {
                assert(is_from(forwards, known, failures(forwards, known)[0]));
                let k = choose|k: int| #[trigger]
                    reports(forwards, known, k, failures(forwards, known)[0]);
                lemma_failed_iff_said(known, s.profiles[j].forwards[k]);
            }
            assert forall|k: int| 0 <= k < forwards.len() implies failed_off(
                forwards,
                known,
            )[k] == forwards[k] by {
                lemma_failed_iff_said(known, s.profiles[j].forwards[k]);
            }
        }
    }
    lemma_quiet(s.profiles, snapshots, s.forward_errors, s.routed_caches);
}

proof fn lemma_quiet(
    profiles: Seq<ProfileView>,
    snapshots: Map<Seq<char>, SnapshotView>,
    errors: Map<Seq<char>, Seq<char>>,
    caches: Map<Seq<char>, RoutesView>,
)
    requires
        forall|j: int|
            0 <= j < profiles.len() ==> #[trigger] failures_in(profiles, snapshots, j).len() == 0
                && (snapshots.contains_key(profiles[j].id) ==> failed_off(
                profiles[j].forwards,
                snapshots[profiles[j].id].forwards,
            ) == profiles[j].forwards),
    ensures
        ({
            let r = refreshed(profiles, snapshots, errors, caches);
            r.profiles == profiles && r.errors == errors && r.failed_in.len() == 0
        }),
    decreases profiles.len(),
{
    if profiles.len() > 0 {
        let front = profiles.drop_last();
        let last = profiles.len() - 1;
        assert forall|j: int| 0 <= j < front.len() implies #[trigger] failures_in(
            front,
            snapshots,
            j,
        ).len() == 0 && (snapshots.contains_key(front[j].id) ==> failed_off(
            front[j].forwards,
            snapshots[front[j].id].forwards,
        ) == front[j].forwards) by {
            assert(failures_in(profiles, snapshots, j).len() == 0);
            assert(front[j] == profiles[j]);
        }
        lemma_quiet(front, snapshots, errors, caches);
        assert(failures_in(profiles, snapshots, last).len() == 0);
        assert(profiles[last] == profiles.last());
        assert(front.push(profiles.last()) == profiles);
    } else {
        assert(profiles == Seq::<ProfileView>::empty());
    }
}

/// Failures are reported in the order of the forwards: one more forward adds its own report
/// behind the others, or none.
pub proof fn law_failures_in_order(
    forwards: Seq<PortForwardView>,
    statuses: Seq<ForwardStatusView>,
    f: PortForwardView,
    i: int,
)
    requires
        statuses_apart(statuses),
    ensures
        failures(Seq::empty(), statuses).len() == 0,
        !(f.enabled && is_said_to_have_failed(statuses, f)) ==> failures(
            forwards.push(f),
            statuses,
        ) == failures(forwards, statuses),
        forall|reason: Seq<char>|
            f.enabled && #[trigger] says_failed(statuses, i, f, reason) ==> failures(
                forwards.push(f),
                statuses,
            ) == failures(forwards, statuses).push((f.id, reason)),
{
    assert(forwards.push(f).drop_last() == forwards);
    lemma_failed_iff_said(statuses, f);
    assert forall|reason: Seq<char>|
        f.enabled && #[trigger] says_failed(statuses, i, f, reason) implies failures(
        forwards.push(f),
        statuses,
    ) == failures(forwards, statuses).push((f.id, reason)) by {
        law_every_status_counts(statuses, i, f);
    }
}

/// Whether the `n` effects from `from` on bring forwards to sessions.
pub open spec fn sets_first(effects: Seq<EffectView>, from: int, n: int) -> bool {
    0 <= n && from + n <= effects.len() && forall|i: int|
        from <= i < from + n ==> (#[trigger] effects[i]) is SetForwards
}

/// The effects of a refresh stand in this order: first the sessions get their forwards, then all
/// is stored if any did, then the log is read if it has changed, and last the tray is brought up
/// to date.
pub proof fn law_refresh_effects_in_order(
    s: AppView,
    m: Message,
    fresh: NewIdsView,
    revision: u64,
    from: int,
) -> (n: int)
    requires
        match m {
            Message::Tick(o) => revision == o.log_revision && from == 0,
            Message::SetupTray(o) => revision == o.log_revision && from == 2,
            _ => false,
        },
    ensures
        ({
            let effects = step(s, m, fresh).1;
            let stored = from + n < effects.len() && effects[from + n] == EffectView::Persist;
            let rest = if stored {
                from + n + 1
            } else {
                from + n
            };
            &&& sets_first(effects, from, n)
            &&& n > 0 ==> stored
            &&& revision != s.log_revision ==> effects.len() == rest + 2 && effects[rest]
                == EffectView::ReadLogs && effects[rest + 1] == EffectView::SyncTray
            &&& revision == s.log_revision ==> effects.len() == rest + 1 && effects[rest]
                == EffectView::SyncTray
        }),
{
    let snapshots = match m {
        Message::Tick(o) => o.snapshots@,
        Message::SetupTray(o) => o.snapshots@,
        _ => Map::empty(),
    };
    let r = refreshed(s.profiles, snapshots, s.forward_errors, s.routed_caches);
    let sets = set_forwards(r.profiles, r.failed_in);
    let effects = step(s, m, fresh).1;
    lemma_only_set_forwards(r.profiles, r.failed_in);
    lemma_no_more_sets(r.profiles, r.failed_in);
    let n = sets.len() as int;
    assert forall|i: int| from <= i < from + n implies (#[trigger] effects[i]) is SetForwards by {
        assert(effects[i] == sets[i - from]);
    }
    n
}

proof fn lemma_no_more_sets(profiles: Seq<ProfileView>, ids: Seq<Seq<char>>)
    ensures
        set_forwards(profiles, ids).len() <= ids.len(),
    decreases ids.len(),
{
    if ids.len() > 0 {
        lemma_no_more_sets(profiles, ids.drop_last());
    }
}

} // verus!
