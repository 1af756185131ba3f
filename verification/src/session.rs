//! What is known of a profile's tunnel session at one moment.

use vstd::prelude::*;
use vstd::string::*;

use crate::config::{clone_opt, clone_strings};
use crate::forward::{ForwardStatus, ForwardStatusView};
use crate::forward_manager::status_views;
use crate::text::{opt_string, strings};

verus! {

/// How far a session has come.
#[derive(Debug, Clone, Copy, PartialEq, Eq, Structural)]
pub enum Phase {
    Idle,
    Connecting,
    Connected,
    Reconnecting,
}

/// Whether a session runs in a phase.
pub open spec fn is_running(phase: Phase) -> bool {
    phase != Phase::Idle
}

/// The rules that a server told a session to tunnel.
#[derive(Debug, PartialEq, Eq)]
pub struct Routes {
    pub domains: Vec<String>,
    pub cidrs: Vec<String>,
}

/// What [`Routes`] hold.
#[verifier::ext_equal]
pub struct RoutesView {
    pub domains: Seq<Seq<char>>,
    pub cidrs: Seq<Seq<char>>,
}

impl View for Routes {
    type V = RoutesView;

    open spec fn view(&self) -> RoutesView {
        RoutesView { domains: strings(self.domains@), cidrs: strings(self.cidrs@) }
    }
}

impl Clone for Routes {
    fn clone(&self) -> (r: Self)
        ensures
            r@ == self@,
    {
        Routes { domains: clone_strings(&self.domains), cidrs: clone_strings(&self.cidrs) }
    }
}

/// What is known of a profile's session.
#[derive(Debug)]
pub struct Snapshot {
    pub phase: Phase,
    /// The address of the local SOCKS5 proxy, while it listens.
    pub socks_addr: Option<String>,
    pub forwards: Vec<ForwardStatus>,
    pub routes: Routes,
}

/// What a [`Snapshot`] holds.
#[verifier::ext_equal]
pub struct SnapshotView {
    pub phase: Phase,
    pub socks_addr: Option<Seq<char>>,
    pub forwards: Seq<ForwardStatusView>,
    pub routes: RoutesView,
}

impl View for Snapshot {
    type V = SnapshotView;

    open spec fn view(&self) -> SnapshotView {
        SnapshotView {
            phase: self.phase,
            socks_addr: opt_string(self.socks_addr),
            forwards: status_views(self.forwards@),
            routes: self.routes@,
        }
    }
}

fn clone_statuses(v: &Vec<ForwardStatus>) -> (r: Vec<ForwardStatus>)
    ensures
        status_views(r@) == status_views(v@),
{
    let mut out: Vec<ForwardStatus> = Vec::new();
    let mut i: usize = 0;
    while i < v.len()
        invariant
            i <= v.len(),
            out@.len() == i,
            forall|j: int| 0 <= j < i ==> (#[trigger] out@[j])@ == v@[j]@,
        decreases v.len() - i,
    {
        out.push(v[i].clone());
        i += 1;
    }
    assert(status_views(out@) == status_views(v@));
    out
}

impl Clone for Snapshot {
    fn clone(&self) -> (r: Self)
        ensures
            r@ == self@,
    {
        Snapshot {
            phase: self.phase,
            socks_addr: clone_opt(&self.socks_addr),
            forwards: clone_statuses(&self.forwards),
            routes: self.routes.clone(),
        }
    }
}

impl SnapshotView {
    /// What is known before the first session.
    pub open spec fn idle() -> Self {
        SnapshotView {
            phase: Phase::Idle,
            socks_addr: None,
            forwards: Seq::empty(),
            routes: RoutesView { domains: Seq::empty(), cidrs: Seq::empty() },
        }
    }
}

impl Snapshot {
    /// What is known before the first session.
    pub fn empty() -> (r: Self)
        ensures
            r@ == SnapshotView::idle(),
    {
        let r = Snapshot {
            phase: Phase::Idle,
            socks_addr: None,
            forwards: Vec::new(),
            routes: Routes { domains: Vec::new(), cidrs: Vec::new() },
        };
        assert(r@.forwards == Seq::<ForwardStatusView>::empty());
        assert(r@.routes.domains == Seq::<Seq<char>>::empty());
        assert(r@.routes.cidrs == Seq::<Seq<char>>::empty());
        r
    }

    /// Whether the session runs.
    pub fn is_running(&self) -> (r: bool)
        ensures
            r == is_running(self@.phase),
    {
        self.phase != Phase::Idle
    }
}

} // verus!
