//! What applying a set of forwards and rebuilding an endpoint promise.

use vstd::prelude::*;

use crate::endpoint::{installed, rebuild_step, Current, RebuildStep};
use crate::forward::ForwardSpecView;
use crate::forward_manager::{applied, desired, distinct_ids, has_id, kept, started, stopped};

verus! {

/// Of several forwards with one id, the last is the desired one.
pub proof fn law_last_of_an_id_is_desired(forwards: Seq<ForwardSpecView>, id: Seq<char>, i: int)
    ensures
        0 <= i < forwards.len() && forwards[i].id == id && (forall|j: int|
            i < j < forwards.len() ==> (#[trigger] forwards[j]).id != id) ==> desired(forwards, id)
            == Some(forwards[i]),
        (forall|j: int| 0 <= j < forwards.len() ==> (#[trigger] forwards[j]).id != id) ==> desired(
            forwards,
            id,
        ) is None,
    decreases forwards.len(),
{
    if forwards.len() > 0 {
        let front = forwards.drop_last();
        let last = forwards.len() - 1;
        law_last_of_an_id_is_desired(front, id, i);
        assert(forwards[last] == forwards.last());
        if 0 <= i < last && forwards[i].id == id && (forall|j: int|
            i < j < forwards.len() ==> (#[trigger] forwards[j]).id != id) {
            assert(forwards[last].id != id);
            assert forall|j: int| i < j < front.len() implies (#[trigger] front[j]).id != id by {
                assert(forwards[j].id != id);
            }
        }
        if forall|j: int| 0 <= j < forwards.len() ==> (#[trigger] forwards[j]).id != id {
            assert(forwards[last].id != id);
            assert forall|j: int| 0 <= j < front.len() implies (#[trigger] front[j]).id != id by {
                assert(forwards[j].id != id);
            }
        }
    }
}

proof fn lemma_desired_with_distinct_ids(forwards: Seq<ForwardSpecView>, t: ForwardSpecView)
    requires
        distinct_ids(forwards),
    ensures
        desired(forwards, t.id) == Some(t) <==> forwards.contains(t),
{
    if exists|i: int| 0 <= i < forwards.len() && (#[trigger] forwards[i]).id == t.id {
        let i = choose|i: int| 0 <= i < forwards.len() && (#[trigger] forwards[i]).id == t.id;
        assert forall|j: int| i < j < forwards.len() implies (#[trigger] forwards[j]).id != t.id by {
            assert(forwards[i].id != forwards[j].id);
        }
        law_last_of_an_id_is_desired(forwards, t.id, i);
        if forwards.contains(t) {
            let k = forwards.index_of(t);
            if k < i {
                assert(forwards[k].id != forwards[i].id);
            } else if i < k {
                assert(forwards[i].id != forwards[k].id);
            }
        }
    } else {
        law_last_of_an_id_is_desired(forwards, t.id, 0);
        if forwards.contains(t) {
            let k = forwards.index_of(t);
            assert(forwards[k].id == t.id);
        }
    }
}

proof fn lemma_stopped(
    running: Seq<ForwardSpecView>,
    forwards: Seq<ForwardSpecView>,
    i: int,
)
    requires
        distinct_ids(running),
        distinct_ids(forwards),
        0 <= i < running.len(),
    ensures
        stopped(running, forwards).contains(running[i].id) <==> !forwards.contains(running[i]),
        kept(running, forwards).contains(running[i]) <==> forwards.contains(running[i]),
    decreases running.len(),
{
    let front = running.drop_last();
    let last = running.len() - 1;
    assert(running[last] == running.last());
    assert(distinct_ids(front)) by {
        assert forall|a: int, b: int| 0 <= a < b < front.len() implies #[trigger] front[a].id
            != #[trigger] front[b].id by {
            assert(running[a].id != running[b].id);
        }
    }
    lemma_desired_with_distinct_ids(forwards, running[last]);
    let (a, b) = (stopped(front, forwards), stopped(running, forwards));
    let (c, d) = (kept(front, forwards), kept(running, forwards));
    lemma_from_running(front, forwards);
    if i < last {
        lemma_stopped(front, forwards, i);
        assert(running[i].id != running[last].id);
        if a.contains(running[i].id) {
            let k = a.index_of(running[i].id);
            assert(b[k] == running[i].id);
        }
        if b.contains(running[i].id) {
            let k = b.index_of(running[i].id);
            assert(k < a.len());
            assert(a[k] == running[i].id);
        }
        if c.contains(running[i]) {
            let k = c.index_of(running[i]);
            assert(d[k] == running[i]);
        }
        if d.contains(running[i]) {
            let k = d.index_of(running[i]);
            assert(k < c.len());
            assert(c[k] == running[i]);
        }
    } else {
        if forwards.contains(running[i]) {
            assert(d[d.len() - 1] == running[i]);
            if a.contains(running[i].id) {
                let k = a.index_of(running[i].id);
                let j = choose|j: int| 0 <= j < front.len() && (#[trigger] front[j]).id == a[k];
                assert(running[j].id != running[last].id);
            }
        } else {
            assert(b[b.len() - 1] == running[i].id);
            if c.contains(running[i]) {
                let k = c.index_of(running[i]);
                let j = choose|j: int| 0 <= j < front.len() && #[trigger] front[j] == c[k];
                assert(running[j].id != running[last].id);
            }
        }
    }
}

proof fn lemma_from_running(running: Seq<ForwardSpecView>, forwards: Seq<ForwardSpecView>)
    ensures
        forall|k: int|
            0 <= k < stopped(running, forwards).len() ==> is_running_id(
                running,
                #[trigger] stopped(running, forwards)[k],
            ),
        forall|k: int|
            0 <= k < kept(running, forwards).len() ==> running.contains(
                #[trigger] kept(running, forwards)[k],
            ),
    decreases running.len(),
{
    if running.len() > 0 {
        let front = running.drop_last();
        lemma_from_running(front, forwards);
        let (a, b) = (stopped(front, forwards), stopped(running, forwards));
        let (c, d) = (kept(front, forwards), kept(running, forwards));
        assert(running[running.len() - 1] == running.last());
        assert forall|k: int| 0 <= k < b.len() implies is_running_id(running, #[trigger] b[k]) by {
            if k < a.len() {
                assert(is_running_id(front, a[k]));
                let j = choose|j: int| 0 <= j < front.len() && (#[trigger] front[j]).id == a[k];
                assert(running[j].id == b[k]);
            } else {
                assert(running[running.len() - 1].id == b[k]);
            }
        }
        assert forall|k: int| 0 <= k < d.len() implies running.contains(#[trigger] d[k]) by {
            if k < c.len() {
                assert(front.contains(c[k]));
                let j = front.index_of(c[k]);
                assert(running[j] == d[k]);
            } else {
                assert(running[running.len() - 1] == d[k]);
            }
        }
    }
}

/// Whether a forward with the id runs.
pub open spec fn is_running_id(running: Seq<ForwardSpecView>, id: Seq<char>) -> bool {
    exists|j: int| 0 <= j < running.len() && (#[trigger] running[j]).id == id
}

/// Applying a set of forwards stops exactly the running ones that are not in it as they are, and
/// lets the others run on.
pub proof fn law_exactly_the_others_stop(
    running: Seq<ForwardSpecView>,
    forwards: Seq<ForwardSpecView>,
    i: int,
    k: int,
)
    requires
        distinct_ids(running),
        distinct_ids(forwards),
        0 <= i < running.len(),
    ensures
        stopped(running, forwards).contains(running[i].id) <==> !forwards.contains(running[i]),
        kept(running, forwards).contains(running[i]) <==> forwards.contains(running[i]),
        0 <= k < stopped(running, forwards).len() ==> is_running_id(
            running,
            stopped(running, forwards)[k],
        ),
        stopped(running, forwards).len() + kept(running, forwards).len() == running.len(),
{
    lemma_stopped(running, forwards, i);
    lemma_from_running(running, forwards);
    lemma_parts(running, forwards);
}

proof fn lemma_parts(running: Seq<ForwardSpecView>, forwards: Seq<ForwardSpecView>)
    ensures
        stopped(running, forwards).len() + kept(running, forwards).len() == running.len(),
    decreases running.len(),
{
    if running.len() > 0 {
        lemma_parts(running.drop_last(), forwards);
    }
}

/// Of the forwards in a set, exactly those are started whose id does not run yet, each once and in
/// the order of the set. With what runs on, they are all that runs.
pub proof fn law_exactly_the_new_ones_start(
    running: Seq<ForwardSpecView>,
    forwards: Seq<ForwardSpecView>,
    i: int,
)
    requires
        distinct_ids(forwards),
        0 <= i < forwards.len(),
    ensures
        started(running, forwards).contains(forwards[i]) <==> !is_running_id(
            running,
            forwards[i].id,
        ),
        applied(running, forwards) == kept(running, forwards) + started(
            kept(running, forwards),
            forwards,
        ),
    decreases forwards.len(),
{
    let front = forwards.drop_last();
    let last = forwards.len() - 1;
    let x = forwards[last];
    assert(x == forwards.last());
    assert(distinct_ids(front)) by {
        assert forall|a: int, b: int| 0 <= a < b < front.len() implies #[trigger] front[a].id
            != #[trigger] front[b].id by {
            assert(forwards[a].id != forwards[b].id);
        }
    }
    let (a, b) = (started(running, front), started(running, forwards));
    lemma_from_set(running, front);
    // Whether the last one runs already.
    assert(has_id(running + a, x.id) <==> is_running_id(running, x.id)) by {
        if has_id(running + a, x.id) {
            let k = choose|k: int| 0 <= k < (running + a).len() && #[trigger] (running + a)[k].id
                == x.id;
            if k < running.len() {
                assert(running[k].id == x.id);
            } else {
                let y = a[k - running.len()];
                assert(front.contains(y));
                let j = front.index_of(y);
                assert(forwards[j].id != forwards[last].id);
            }
        }
        if is_running_id(running, x.id) {
            let k = choose|k: int| 0 <= k < running.len() && (#[trigger] running[k]).id == x.id;
            assert((running + a)[k].id == x.id);
        }
    }
    if i < last {
        law_exactly_the_new_ones_start(running, front, i);
        assert(forwards[i].id != forwards[last].id);
        if a.contains(forwards[i]) {
            let k = a.index_of(forwards[i]);
            assert(b[k] == forwards[i]);
        }
        if b.contains(forwards[i]) {
            let k = b.index_of(forwards[i]);
            assert(k < a.len());
            assert(a[k] == forwards[i]);
        }
    } else {
        if is_running_id(running, x.id) {
            if a.contains(x) {
                let k = a.index_of(x);
                assert(front.contains(a[k]));
                let j = front.index_of(x);
                assert(forwards[j].id != forwards[last].id);
            }
        } else {
            assert(b[b.len() - 1] == x);
        }
    }
}

proof fn lemma_from_set(running: Seq<ForwardSpecView>, forwards: Seq<ForwardSpecView>)
    ensures
        forall|k: int|
            0 <= k < started(running, forwards).len() ==> forwards.contains(
                #[trigger] started(running, forwards)[k],
            ),
    decreases forwards.len(),
{
    if forwards.len() > 0 {
        let front = forwards.drop_last();
        lemma_from_set(running, front);
        let (a, b) = (started(running, front), started(running, forwards));
        assert(forwards[forwards.len() - 1] == forwards.last());
        assert forall|k: int| 0 <= k < b.len() implies forwards.contains(#[trigger] b[k]) by {
            if k < a.len() {
                assert(front.contains(a[k]));
                let j = front.index_of(a[k]);
                assert(forwards[j] == b[k]);
            } else {
                assert(forwards[forwards.len() - 1] == b[k]);
            }
        }
    }
}

/// One who saw the endpoint that is in use builds a new one; one who saw an older one joins. A new
/// endpoint takes the place of the old one and counts one up; a build that failed changes nothing.
pub proof fn law_rebuild_counts_up<E>(c: Current<E>, seen: u64, built: Result<E, String>)
    requires
        c.generation < u64::MAX,
    ensures
        rebuild_step(seen, c.generation) == RebuildStep::Build <==> seen == c.generation,
        rebuild_step(seen, c.generation) == RebuildStep::Joined <==> seen != c.generation,
        built is Ok ==> installed(c, built).generation == c.generation + 1 && installed(
            c,
            built,
        ).endpoint == built->Ok_0,
        built is Err ==> installed(c, built) == c,
{
}

/// What is stopped, what runs on and what is started stands in the order in which it was given.
/// Of several forwards in a set with one id, at most the first is started.
pub proof fn law_plans_keep_the_order(
    running: Seq<ForwardSpecView>,
    forwards: Seq<ForwardSpecView>,
    t: ForwardSpecView,
    f: ForwardSpecView,
)
    ensures
        desired(forwards, t.id) == Some(t) ==> kept(running.push(t), forwards) == kept(
            running,
            forwards,
        ).push(t) && stopped(running.push(t), forwards) == stopped(running, forwards),
        desired(forwards, t.id) != Some(t) ==> kept(running.push(t), forwards) == kept(
            running,
            forwards,
        ) && stopped(running.push(t), forwards) == stopped(running, forwards).push(t.id),
        is_running_id(running, f.id) || is_running_id(forwards, f.id) ==> started(
            running,
            forwards.push(f),
        ) == started(running, forwards),
        !is_running_id(running, f.id) && !is_running_id(forwards, f.id) ==> started(
            running,
            forwards.push(f),
        ) == started(running, forwards).push(f),
{
    assert(running.push(t).drop_last() == running);
    assert(forwards.push(f).drop_last() == forwards);
    let s = started(running, forwards);
    lemma_from_set(running, forwards);
    lemma_ids_run(running, forwards, f.id);
    if has_id(running + s, f.id) {
        let k = choose|k: int| 0 <= k < (running + s).len() && #[trigger] (running + s)[k].id
            == f.id;
        if k < running.len() {
            assert(running[k].id == f.id);
        } else {
            assert(forwards.contains(s[k - running.len()]));
            let j = forwards.index_of(s[k - running.len()]);
            assert(forwards[j].id == f.id);
        }
    }
}

proof fn lemma_ids_run(
    running: Seq<ForwardSpecView>,
    forwards: Seq<ForwardSpecView>,
    id: Seq<char>,
)
    ensures
        is_running_id(running, id) || is_running_id(forwards, id) ==> has_id(
            running + started(running, forwards),
            id,
        ),
    decreases forwards.len(),
{
    let s = started(running, forwards);
    if is_running_id(running, id) {
        let k = choose|k: int| 0 <= k < running.len() && (#[trigger] running[k]).id == id;
        assert((running + s)[k].id == id);
    } else if is_running_id(forwards, id) {
        let front = forwards.drop_last();
        let before = started(running, front);
        let k = choose|k: int| 0 <= k < forwards.len() && (#[trigger] forwards[k]).id == id;
        lemma_ids_run(running, front, id);
        if k < front.len() {
            assert(front[k].id == id);
            let j = choose|j: int|
                0 <= j < (running + before).len() && #[trigger] (running + before)[j].id == id;
            assert((running + s)[j] == (running + before)[j]);
        } else if has_id(running + before, id) {
            let j = choose|j: int|
                0 <= j < (running + before).len() && #[trigger] (running + before)[j].id == id;
            assert((running + s)[j].id == id);
        } else {
            assert((running + s)[(running + s).len() - 1].id == id);
        }
    }
}

} // verus!
