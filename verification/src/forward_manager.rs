//! Which forwards run: the listeners to stop and to start so that exactly the desired ones run.

use vstd::prelude::*;
use vstd::string::*;

use crate::endpoint::same_bytes;
use crate::forward::{ForwardShared, ForwardSpec, ForwardSpecView, ForwardStatus, ForwardStatusView};
use crate::text::strings;
use crate::wire::{SocketAddr, Target};

verus! {

/// The views of forwards.
pub open spec fn spec_views(s: Seq<ForwardSpec>) -> Seq<ForwardSpecView> {
    s.map_values(|f: ForwardSpec| f@)
}

/// The views of statuses.
pub open spec fn status_views(s: Seq<ForwardStatus>) -> Seq<ForwardStatusView> {
    s.map_values(|f: ForwardStatus| f@)
}

/// Whether a forward with the given id is in the list.
pub open spec fn has_id(s: Seq<ForwardSpecView>, id: Seq<char>) -> bool {
    exists|i: int| 0 <= i < s.len() && #[trigger] s[i].id == id
}

/// Whether no two forwards in the list have the same id.
pub open spec fn distinct_ids(s: Seq<ForwardSpecView>) -> bool {
    forall|i: int, j: int| 0 <= i < j < s.len() ==> #[trigger] s[i].id != #[trigger] s[j].id
}

/// The last forward with the given id: among several, the one that counts.
pub open spec fn desired(forwards: Seq<ForwardSpecView>, id: Seq<char>) -> Option<ForwardSpecView>
    decreases forwards.len(),
{
    if forwards.len() == 0 {
        None
    } else if forwards.last().id == id {
        Some(forwards.last())
    } else {
        desired(forwards.drop_last(), id)
    }
}

/// Whether a running forward is still the desired one with its id.
pub open spec fn stays(forwards: Seq<ForwardSpecView>, t: ForwardSpecView) -> bool {
    desired(forwards, t.id) == Some(t)
}

/// The running forwards that go on.
pub open spec fn kept(running: Seq<ForwardSpecView>, forwards: Seq<ForwardSpecView>) -> Seq<
    ForwardSpecView,
>
    decreases running.len(),
{
    if running.len() == 0 {
        Seq::empty()
    } else {
        let rest = kept(running.drop_last(), forwards);
        if stays(forwards, running.last()) {
            rest.push(running.last())
        } else {
            rest
        }
    }
}

/// The ids of the running forwards that are stopped.
pub open spec fn stopped(running: Seq<ForwardSpecView>, forwards: Seq<ForwardSpecView>) -> Seq<
    Seq<char>,
>
    decreases running.len(),
{
    if running.len() == 0 {
        Seq::empty()
    } else {
        let rest = stopped(running.drop_last(), forwards);
        if stays(forwards, running.last()) {
            rest
        } else {
            rest.push(running.last().id)
        }
    }
}

/// The forwards that are started besides those that run: each with an id that does not run yet.
pub open spec fn started(running: Seq<ForwardSpecView>, forwards: Seq<ForwardSpecView>) -> Seq<
    ForwardSpecView,
>
    decreases forwards.len(),
{
    if forwards.len() == 0 {
        Seq::empty()
    } else {
        let rest = started(running, forwards.drop_last());
        if has_id(running + rest, forwards.last().id) {
            rest
        } else {
            rest.push(forwards.last())
        }
    }
}

/// The forwards that run once the desired set has been applied.
pub open spec fn applied(running: Seq<ForwardSpecView>, forwards: Seq<ForwardSpecView>) -> Seq<
    ForwardSpecView,
> {
    kept(running, forwards) + started(kept(running, forwards), forwards)
}

/// What to do so that the desired forwards run: stop these, then start those.
#[derive(Debug)]
pub struct ForwardPlan {
    pub stop: Vec<String>,
    pub start: Vec<ForwardSpec>,
}

/// The forwards that run.
#[derive(Debug)]
pub struct ForwardManager {
    pub tasks: Vec<ForwardSpec>,
}

impl View for ForwardManager {
    type V = Seq<ForwardSpecView>;

    open spec fn view(&self) -> Seq<ForwardSpecView> {
        spec_views(self.tasks@)
    }
}

fn same_target(a: &Target, b: &Target) -> (r: bool)
    ensures
        r == (a@ == b@),
{
    match (a, b) {
        (
            Target::Ip(SocketAddr::V4 { octets: x, port: p }),
            Target::Ip(SocketAddr::V4 { octets: y, port: q }),
        ) => same_bytes(x.as_slice(), y.as_slice()) && *p == *q,
        (
            Target::Ip(SocketAddr::V6 { octets: x, port: p, flowinfo: f, scope_id: s }),
            Target::Ip(SocketAddr::V6 { octets: y, port: q, flowinfo: g, scope_id: t }),
        ) => same_bytes(x.as_slice(), y.as_slice()) && *p == *q && *f == *g && *s == *t,
        (Target::Domain(x, p), Target::Domain(y, q)) => *x == *y && *p == *q,
        _ => false,
    }
}

fn same_spec(a: &ForwardSpec, b: &ForwardSpec) -> (r: bool)
    ensures
        r == (a@ == b@),
{
    a.id == b.id && a.local_port == b.local_port && same_target(&a.target, &b.target)
}

fn contains_id(tasks: &Vec<ForwardSpec>, id: &String) -> (r: bool)
    ensures
        r == has_id(spec_views(tasks@), id@),
{
    let ghost all = spec_views(tasks@);
    let mut i: usize = 0;
    while i < tasks.len()
        invariant
            i <= tasks.len(),
            all == spec_views(tasks@),
            forall|j: int| 0 <= j < i ==> #[trigger] all[j].id != id@,
        decreases tasks.len() - i,
    {
        assert(all[i as int] == tasks@[i as int]@);
        if tasks[i].id == *id {
            assert(all[i as int].id == id@);
            return true;
        }
        i += 1;
    }
    false
}

fn is_desired(forwards: &[ForwardSpec], t: &ForwardSpec) -> (r: bool)
    ensures
        r == stays(spec_views(forwards@), t@),
{
    let ghost all = spec_views(forwards@);
    let mut i: usize = forwards.len();
    assert(all.take(i as int) == all);
    while i > 0
        invariant
            i <= forwards.len(),
            all == spec_views(forwards@),
            desired(all, t@.id) == desired(all.take(i as int), t@.id),
        decreases i,
    {
        i -= 1;
        assert(all.take(i + 1).last() == forwards@[i as int]@);
        assert(all.take(i + 1).drop_last() == all.take(i as int));
        if forwards[i].id == t.id {
            return same_spec(&forwards[i], t);
        }
    }
    false
}

impl ForwardManager {
    /// A manager that runs the given forwards, and what to start for it.
    pub fn new(forwards: &[ForwardSpec]) -> (r: (Self, ForwardPlan))
        ensures
            r.0@ == applied(Seq::empty(), spec_views(forwards@)),
            distinct_ids(r.0@),
            r.1.stop@.len() == 0,
            spec_views(r.1.start@) == r.0@,
    {
        let mut manager = ForwardManager { tasks: Vec::new() };
        assert(manager@ == Seq::<ForwardSpecView>::empty());
        let plan = manager.apply(forwards);
        assert(strings(plan.stop@).len() == 0);
        (manager, plan)
    }

    /// Makes the desired forwards the running ones, and says what to stop and start for it.
    pub fn apply(&mut self, forwards: &[ForwardSpec]) -> (plan: ForwardPlan)
        requires
            distinct_ids(old(self)@),
        ensures
            final(self)@ == applied(old(self)@, spec_views(forwards@)),
            distinct_ids(final(self)@),
            strings(plan.stop@) == stopped(old(self)@, spec_views(forwards@)),
            spec_views(plan.start@) == started(
                kept(old(self)@, spec_views(forwards@)),
                spec_views(forwards@),
            ),
    {
        let ghost running = self@;
        let ghost all = spec_views(forwards@);
        let mut tasks: Vec<ForwardSpec> = Vec::new();
        let mut stop: Vec<String> = Vec::new();
        let mut i: usize = 0;
        assert(spec_views(tasks@) == kept(running.take(0), all));
        assert(strings(stop@) == stopped(running.take(0), all));
        while i < self.tasks.len()
            invariant
                i <= self.tasks.len(),
                running == self@,
                all == spec_views(forwards@),
                spec_views(tasks@) == kept(running.take(i as int), all),
                strings(stop@) == stopped(running.take(i as int), all),
            decreases self.tasks.len() - i,
        {
            let t = &self.tasks[i];
            assert(running.take(i + 1).last() == t@);
            assert(running.take(i + 1).drop_last() == running.take(i as int));
            let ghost before_tasks = tasks@;
            let ghost before_stop = stop@;
            if is_desired(forwards, t) {
                tasks.push(t.clone());
                assert(spec_views(tasks@) == spec_views(before_tasks).push(t@));
            } else {
                stop.push(t.id.clone());
                assert(strings(stop@) == strings(before_stop).push(t@.id));
            }
            i += 1;
        }
        assert(running.take(i as int) == running);
        let ghost still = spec_views(tasks@);
        let mut start: Vec<ForwardSpec> = Vec::new();
        let mut i: usize = 0;
        assert(spec_views(start@) == started(still, all.take(0)));
        assert(spec_views(tasks@) == still + started(still, all.take(0)));
        while i < forwards.len()
            invariant
                i <= forwards.len(),
                all == spec_views(forwards@),
                spec_views(start@) == started(still, all.take(i as int)),
                spec_views(tasks@) == still + started(still, all.take(i as int)),
            decreases forwards.len() - i,
        {
            let f = &forwards[i];
            assert(all.take(i + 1).last() == f@);
            assert(all.take(i + 1).drop_last() == all.take(i as int));
            let ghost before_tasks = tasks@;
            let ghost before_start = start@;
            if !contains_id(&tasks, &f.id) {
                tasks.push(f.clone());
                start.push(f.clone());
                assert(spec_views(tasks@) == spec_views(before_tasks).push(f@));
                assert(spec_views(start@) == spec_views(before_start).push(f@));
            }
            i += 1;
        }
        assert(all.take(i as int) == all);
        self.tasks = tasks;
        proof {
            law_applied_ids_are_distinct(running, all);
        }
        ForwardPlan { stop, start }
    }

    /// The statuses of the running forwards, given what the tasks of each share.
    pub fn statuses(&self, shared: &[ForwardShared]) -> (r: Vec<ForwardStatus>)
        requires
            shared@.len() == self@.len(),
        ensures
            status_views(r@) == self@.map(|i: int, f: ForwardSpecView| shared@[i]@.status(f.id)),
    {
        let mut out: Vec<ForwardStatus> = Vec::new();
        let mut i: usize = 0;
        while i < self.tasks.len()
            invariant
                i <= self.tasks.len(),
                shared@.len() == self.tasks@.len(),
                out@.len() == i,
                forall|j: int|
                    0 <= j < i ==> #[trigger] out@[j]@ == shared@[j]@.status(self.tasks@[j]@.id),
            decreases self.tasks.len() - i,
        {
            out.push(shared[i].status(&self.tasks[i].id));
            i += 1;
        }
        assert(status_views(out@) == self@.map(
            |i: int, f: ForwardSpecView| shared@[i]@.status(f.id),
        ));
        out
    }
}

proof fn lemma_kept(running: Seq<ForwardSpecView>, forwards: Seq<ForwardSpecView>)
    ensures
        forall|i: int|
            0 <= i < kept(running, forwards).len() ==> running.contains(
                #[trigger] kept(running, forwards)[i],
            ) && stays(forwards, kept(running, forwards)[i]),
        forall|t: ForwardSpecView|
            running.contains(t) && stays(forwards, t) ==> kept(running, forwards).contains(t),
        distinct_ids(running) ==> distinct_ids(kept(running, forwards)),
    decreases running.len(),
{
    if running.len() > 0 {
        let front = running.drop_last();
        let last = running.last();
        let rest = kept(front, forwards);
        let all = kept(running, forwards);
        lemma_kept(front, forwards);
        assert(running == front.push(last));
        assert forall|i: int| 0 <= i < all.len() implies running.contains(#[trigger] all[i])
            && stays(forwards, all[i]) by {
            if i < rest.len() {
                assert(front.contains(rest[i]));
                let k = front.index_of(rest[i]);
                assert(running[k] == rest[i]);
            } else {
                assert(running[running.len() - 1] == last);
            }
        }
        assert forall|t: ForwardSpecView| running.contains(t) && stays(
            forwards,
            t,
        ) implies all.contains(t) by {
            let k = running.index_of(t);
            if k < front.len() {
                assert(front[k] == t);
                assert(front.contains(t));
                let j = rest.index_of(t);
                assert(all[j] == t);
            } else {
                assert(all[all.len() - 1] == t);
            }
        }
        if distinct_ids(running) {
            assert(distinct_ids(front)) by {
                assert forall|i: int, j: int| 0 <= i < j < front.len() implies #[trigger] front[i].id
                    != #[trigger] front[j].id by {
                    assert(running[i].id != running[j].id);
                }
            }
            assert forall|i: int, j: int| 0 <= i < j < all.len() implies #[trigger] all[i].id
                != #[trigger] all[j].id by {
                if j < rest.len() {
                    assert(rest[i].id != rest[j].id);
                } else {
                    assert(front.contains(rest[i]));
                    let k = front.index_of(rest[i]);
                    assert(running[k].id != running[running.len() - 1].id);
                }
            }
        }
    }
}

proof fn lemma_started(running: Seq<ForwardSpecView>, forwards: Seq<ForwardSpecView>)
    ensures
        forall|i: int|
            0 <= i < started(running, forwards).len() ==> forwards.contains(
                #[trigger] started(running, forwards)[i],
            ),
        forall|i: int|
            0 <= i < forwards.len() ==> has_id(
                running + started(running, forwards),
                #[trigger] forwards[i].id,
            ),
        distinct_ids(running) ==> distinct_ids(running + started(running, forwards)),
    decreases forwards.len(),
{
    if forwards.len() > 0 {
        let front = forwards.drop_last();
        let last = forwards.last();
        let rest = started(running, front);
        let all = started(running, forwards);
        lemma_started(running, front);
        assert forall|i: int| 0 <= i < all.len() implies forwards.contains(#[trigger] all[i]) by {
            if i < rest.len() {
                assert(front.contains(rest[i]));
                let k = front.index_of(rest[i]);
                assert(forwards[k] == rest[i]);
            } else {
                assert(forwards[forwards.len() - 1] == last);
            }
        }
        assert forall|i: int| 0 <= i < forwards.len() implies has_id(
            running + all,
            #[trigger] forwards[i].id,
        ) by {
            if i < front.len() {
                assert(has_id(running + rest, front[i].id));
                let k = choose|k: int|
                    0 <= k < (running + rest).len() && #[trigger] (running + rest)[k].id
                        == front[i].id;
                assert((running + all)[k].id == front[i].id);
            } else if has_id(running + rest, last.id) {
            } else {
                assert((running + all)[(running + all).len() - 1].id == last.id);
            }
        }
        if distinct_ids(running) {
            let r = running + rest;
            let a = running + all;
            assert forall|i: int, j: int| 0 <= i < j < a.len() implies #[trigger] a[i].id
                != #[trigger] a[j].id by {
                assert(a[i] == r[i]);
                if j < r.len() {
                    assert(a[j] == r[j]);
                }
            }
        }
    }
}

proof fn lemma_desired(forwards: Seq<ForwardSpecView>, id: Seq<char>)
    ensures
        desired(forwards, id) matches Some(t) ==> forwards.contains(t) && t.id == id,
        desired(forwards, id) is None ==> !has_id(forwards, id),
    decreases forwards.len(),
{
    if forwards.len() > 0 {
        let front = forwards.drop_last();
        lemma_desired(front, id);
        assert(forwards[forwards.len() - 1] == forwards.last());
        if forwards.last().id != id {
            if let Some(t) = desired(front, id) {
                let k = front.index_of(t);
                assert(forwards[k] == t);
            } else {
                assert forall|i: int| 0 <= i < forwards.len() implies #[trigger] forwards[i].id
                    != id by {
                    if i < front.len() {
                        assert(front[i] == forwards[i]);
                    }
                }
            }
        }
    }
}

/// No two running forwards ever have the same id.
pub proof fn law_applied_ids_are_distinct(
    running: Seq<ForwardSpecView>,
    forwards: Seq<ForwardSpecView>,
)
    requires
        distinct_ids(running),
    ensures
        distinct_ids(applied(running, forwards)),
{
    lemma_kept(running, forwards);
    lemma_started(kept(running, forwards), forwards);
}

/// Exactly the desired ids run once a set has been applied.
pub proof fn law_exactly_the_desired_ids_run(
    running: Seq<ForwardSpecView>,
    forwards: Seq<ForwardSpecView>,
    id: Seq<char>,
)
    ensures
        has_id(applied(running, forwards), id) <==> has_id(forwards, id),
{
    let k = kept(running, forwards);
    let s = started(k, forwards);
    lemma_kept(running, forwards);
    lemma_started(k, forwards);
    if has_id(k + s, id) {
        let i = choose|i: int| 0 <= i < (k + s).len() && #[trigger] (k + s)[i].id == id;
        if i < k.len() {
            assert(stays(forwards, k[i]));
            lemma_desired(forwards, k[i].id);
            let j = forwards.index_of(k[i]);
            assert(forwards[j].id == id);
        } else {
            assert(forwards.contains(s[i - k.len()]));
            let j = forwards.index_of(s[i - k.len()]);
            assert(forwards[j].id == id);
        }
    }
    if has_id(forwards, id) {
        let i = choose|i: int| 0 <= i < forwards.len() && #[trigger] forwards[i].id == id;
        assert(has_id(k + s, forwards[i].id));
    }
}

proof fn lemma_distinct_desired(forwards: Seq<ForwardSpecView>, i: int)
    requires
        distinct_ids(forwards),
        0 <= i < forwards.len(),
    ensures
        stays(forwards, forwards[i]),
{
    lemma_desired(forwards, forwards[i].id);
    assert(has_id(forwards, forwards[i].id));
    let t = desired(forwards, forwards[i].id)->0;
    let k = forwards.index_of(t);
    assert(forwards[k].id == forwards[i].id);
    assert(k == i);
}

/// Where the desired forwards have distinct ids, exactly they run once they have been applied.
pub proof fn law_exactly_the_desired_forwards_run(
    running: Seq<ForwardSpecView>,
    forwards: Seq<ForwardSpecView>,
    t: ForwardSpecView,
)
    requires
        distinct_ids(forwards),
    ensures
        applied(running, forwards).contains(t) <==> forwards.contains(t),
{
    let k = kept(running, forwards);
    let s = started(k, forwards);
    lemma_kept(running, forwards);
    lemma_started(k, forwards);
    if (k + s).contains(t) {
        let i = (k + s).index_of(t);
        if i < k.len() {
            assert(stays(forwards, k[i]));
            lemma_desired(forwards, t.id);
        } else {
            assert(s[i - k.len()] == t);
        }
    }
    if forwards.contains(t) {
        let i = forwards.index_of(t);
        assert(has_id(k + s, forwards[i].id));
        let j = choose|j: int| 0 <= j < (k + s).len() && #[trigger] (k + s)[j].id == t.id;
        let u = (k + s)[j];
        if j < k.len() {
            assert(stays(forwards, k[j]));
            lemma_desired(forwards, u.id);
        } else {
            assert(s[j - k.len()] == u);
        }
        let m = forwards.index_of(u);
        assert(forwards[m].id == forwards[i].id);
        assert(m == i);
        assert((k + s)[j] == t);
    }
}

proof fn lemma_all_kept(running: Seq<ForwardSpecView>, forwards: Seq<ForwardSpecView>)
    requires
        forall|i: int| 0 <= i < running.len() ==> stays(forwards, #[trigger] running[i]),
    ensures
        kept(running, forwards) == running,
        stopped(running, forwards) == Seq::<Seq<char>>::empty(),
    decreases running.len(),
{
    if running.len() > 0 {
        let front = running.drop_last();
        assert forall|i: int| 0 <= i < front.len() implies stays(forwards, #[trigger] front[i]) by {
            assert(running[i] == front[i]);
        }
        lemma_all_kept(front, forwards);
        assert(running[running.len() - 1] == running.last());
        assert(running == front.push(running.last()));
    }
}

proof fn lemma_none_started(running: Seq<ForwardSpecView>, forwards: Seq<ForwardSpecView>)
    requires
        forall|i: int| 0 <= i < forwards.len() ==> has_id(running, #[trigger] forwards[i].id),
    ensures
        started(running, forwards) == Seq::<ForwardSpecView>::empty(),
    decreases forwards.len(),
{
    if forwards.len() > 0 {
        let front = forwards.drop_last();
        assert forall|i: int| 0 <= i < front.len() implies has_id(
            running,
            #[trigger] front[i].id,
        ) by {
            assert(forwards[i] == front[i]);
        }
        lemma_none_started(running, front);
        assert(running + started(running, front) == running);
        assert(forwards[forwards.len() - 1] == forwards.last());
    }
}

/// Where the desired forwards have distinct ids, applying them once more stops and starts
/// nothing.
pub proof fn law_applying_again_changes_nothing(
    running: Seq<ForwardSpecView>,
    forwards: Seq<ForwardSpecView>,
)
    requires
        distinct_ids(forwards),
    ensures
        ({
            let now = applied(running, forwards);
            &&& applied(now, forwards) == now
            &&& stopped(now, forwards).len() == 0
            &&& started(kept(now, forwards), forwards).len() == 0
        }),
{
    let now = applied(running, forwards);
    assert forall|i: int| 0 <= i < now.len() implies stays(forwards, #[trigger] now[i]) by {
        assert(now.contains(now[i]));
        law_exactly_the_desired_forwards_run(running, forwards, now[i]);
        let k = forwards.index_of(now[i]);
        lemma_distinct_desired(forwards, k);
    }
    lemma_all_kept(now, forwards);
    assert forall|i: int| 0 <= i < forwards.len() implies has_id(now, #[trigger] forwards[i].id) by {
        assert(has_id(forwards, forwards[i].id));
        law_exactly_the_desired_ids_run(running, forwards, forwards[i].id);
    }
    lemma_none_started(now, forwards);
    assert(applied(now, forwards) == now);
}

/// Where the desired forwards have distinct ids, a running forward that is one of them goes on
/// without interruption.
pub proof fn law_a_desired_forward_goes_on(
    running: Seq<ForwardSpecView>,
    forwards: Seq<ForwardSpecView>,
    t: ForwardSpecView,
)
    requires
        running.contains(t),
        distinct_ids(forwards),
        forwards.contains(t),
    ensures
        kept(running, forwards).contains(t),
{
    lemma_kept(running, forwards);
    lemma_distinct_desired(forwards, forwards.index_of(t));
}

} // verus!
