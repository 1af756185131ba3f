//! Endpoints: who may connect under which protocol label, what an endpoint is bound with, and how
//! a client's endpoint is replaced.

use vstd::prelude::*;
use vstd::string::*;
use vstd::utf8::{encode_utf8, encode_utf8_decode_utf8};

use crate::text::strings;
use crate::transport::{ALPN, BRIDGE_ALPN, QUICK_ALPN};

verus! {

/// The close code of a connection whose peer is not on the allowlist.
pub const CLOSE_NOT_ALLOWLISTED: u32 = 3;

/// An endpoint id, by its bytes.
#[derive(Debug, Clone, Copy, PartialEq, Eq)]
pub struct EndpointId {
    pub bytes: [u8; 32],
}

impl View for EndpointId {
    type V = Seq<u8>;

    open spec fn view(&self) -> Seq<u8> {
        self.bytes@
    }
}

/// The endpoint ids that may connect to a server. An empty list turns its label off.
#[derive(Debug, Clone)]
pub struct EndpointAllowlists {
    /// The servers that may bridge into this one.
    pub bridge_servers: Vec<EndpointId>,
    /// The clients that may connect in quick mode.
    pub quick_clients: Vec<EndpointId>,
}

/// What an [`EndpointAllowlists`] holds.
#[verifier::ext_equal]
pub struct AllowlistsView {
    pub bridge_servers: Set<Seq<u8>>,
    pub quick_clients: Set<Seq<u8>>,
}

/// The ids in a list.
pub open spec fn id_set(ids: Seq<EndpointId>) -> Set<Seq<u8>> {
    ids.map_values(|id: EndpointId| id@).to_set()
}

impl View for EndpointAllowlists {
    type V = AllowlistsView;

    open spec fn view(&self) -> AllowlistsView {
        AllowlistsView {
            bridge_servers: id_set(self.bridge_servers@),
            quick_clients: id_set(self.quick_clients@),
        }
    }
}

impl Default for EndpointAllowlists {
    fn default() -> (r: Self)
        ensures
            r@ == (AllowlistsView { bridge_servers: Set::empty(), quick_clients: Set::empty() }),
    {
        let r = EndpointAllowlists { bridge_servers: Vec::new(), quick_clients: Vec::new() };
        assert(r@.bridge_servers == Set::<Seq<u8>>::empty());
        assert(r@.quick_clients == Set::<Seq<u8>>::empty());
        r
    }
}

/// Which side of a connection this endpoint is.
#[derive(Debug, Clone, Copy, PartialEq, Eq, Structural)]
pub enum Side {
    Client,
    Server,
}

/// What becomes of a connection once its handshake is complete.
#[derive(Debug, PartialEq, Eq)]
pub enum AfterHandshakeOutcome {
    Accept,
    Reject { error_code: u32, reason: String },
}

/// What an [`AfterHandshakeOutcome`] holds.
#[verifier::ext_equal]
pub enum OutcomeView {
    Accept,
    Reject { error_code: u32, reason: Seq<char> },
}

impl View for AfterHandshakeOutcome {
    type V = OutcomeView;

    open spec fn view(&self) -> OutcomeView {
        match *self {
            AfterHandshakeOutcome::Accept => OutcomeView::Accept,
            AfterHandshakeOutcome::Reject { error_code, reason } => OutcomeView::Reject {
                error_code,
                reason: reason@,
            },
        }
    }
}

/// What becomes of a connection that a list gates.
pub open spec fn gated(
    allowed: Set<Seq<u8>>,
    remote: Seq<u8>,
    disabled: Seq<char>,
    rejected: Seq<char>,
) -> OutcomeView {
    if allowed.contains(remote) {
        OutcomeView::Accept
    } else {
        OutcomeView::Reject {
            error_code: CLOSE_NOT_ALLOWLISTED,
            reason: if allowed == Set::<Seq<u8>>::empty() {
                disabled
            } else {
                rejected
            },
        }
    }
}

/// What becomes of a connection: this side's own dials pass, and so do regular clients, who
/// authenticate later. Bridges and quick-mode clients must be on their list.
pub open spec fn outcome(
    lists: AllowlistsView,
    side: Side,
    alpn: Seq<u8>,
    remote: Seq<u8>,
) -> OutcomeView {
    if side != Side::Server {
        OutcomeView::Accept
    } else if alpn == encode_utf8(BRIDGE_ALPN@) {
        gated(
            lists.bridge_servers,
            remote,
            "bridging is not enabled on this server"@,
            "server id is not on this server's bridge allowlist"@,
        )
    } else if alpn == encode_utf8(QUICK_ALPN@) {
        gated(
            lists.quick_clients,
            remote,
            "quick mode is not enabled on this server"@,
            "client id is not on this server's quick-client allowlist"@,
        )
    } else {
        OutcomeView::Accept
    }
}

pub(crate) fn same_bytes(a: &[u8], b: &[u8]) -> (r: bool)
    ensures
        r == (a@ == b@),
{
    if a.len() != b.len() {
        return false;
    }
    let mut i: usize = 0;
    while i < a.len()
        invariant
            a.len() == b.len(),
            i <= a.len(),
            forall|j: int| 0 <= j < i ==> a@[j] == b@[j],
        decreases a.len() - i,
    {
        if a[i] != b[i] {
            return false;
        }
        i += 1;
    }
    assert(a@ == b@);
    true
}

fn contains_endpoint(ids: &Vec<EndpointId>, remote: &EndpointId) -> (r: bool)
    ensures
        r == id_set(ids@).contains(remote@),
{
    let ghost all = ids@.map_values(|id: EndpointId| id@);
    let mut i: usize = 0;
    while i < ids.len()
        invariant
            i <= ids.len(),
            all == ids@.map_values(|id: EndpointId| id@),
            forall|j: int| 0 <= j < i ==> #[trigger] all[j] != remote@,
        decreases ids.len() - i,
    {
        assert(all[i as int] == ids@[i as int]@);
        if same_bytes(ids[i].bytes.as_slice(), remote.bytes.as_slice()) {
            assert(all.contains(remote@));
            return true;
        }
        i += 1;
    }
    assert(!all.contains(remote@));
    false
}

fn gate(ids: &Vec<EndpointId>, remote: &EndpointId, disabled: &str, rejected: &str) -> (r:
    AfterHandshakeOutcome)
    ensures
        r@ == gated(id_set(ids@), remote@, disabled@, rejected@),
{
    if contains_endpoint(ids, remote) {
        return AfterHandshakeOutcome::Accept;
    }
    let ghost all = ids@.map_values(|id: EndpointId| id@);
    let reason = if ids.len() == 0 {
        assert(id_set(ids@) == Set::<Seq<u8>>::empty());
        String::from_str(disabled)
    } else {
        assert(all.contains(all[0]));
        assert(id_set(ids@).contains(all[0]));
        assert(!Set::<Seq<u8>>::empty().contains(all[0]));
        String::from_str(rejected)
    };
    AfterHandshakeOutcome::Reject { error_code: CLOSE_NOT_ALLOWLISTED, reason }
}

/// Gates connections by the allowlists, the moment their handshake is complete.
#[derive(Debug)]
pub struct AllowlistHook {
    pub allowlists: EndpointAllowlists,
}

impl AllowlistHook {
    /// A hook over the given lists.
    pub fn new(allowlists: EndpointAllowlists) -> (r: Self)
        ensures
            r.allowlists == allowlists,
    {
        AllowlistHook { allowlists }
    }

    /// Says what becomes of a connection, by this endpoint's side of it, its protocol label and
    /// the peer's authenticated id.
    pub fn after_handshake(&self, side: Side, alpn: &[u8], remote_id: &EndpointId) -> (r:
        AfterHandshakeOutcome)
        ensures
            r@ == outcome(self.allowlists@, side, alpn@, remote_id@),
    {
        if side != Side::Server {
            return AfterHandshakeOutcome::Accept;
        }
        if same_bytes(alpn, BRIDGE_ALPN.as_bytes()) {
            gate(
                &self.allowlists.bridge_servers,
                remote_id,
                "bridging is not enabled on this server",
                "server id is not on this server's bridge allowlist",
            )
        } else if same_bytes(alpn, QUICK_ALPN.as_bytes()) {
            gate(
                &self.allowlists.quick_clients,
                remote_id,
                "quick mode is not enabled on this server",
                "client id is not on this server's quick-client allowlist",
            )
        } else {
            AfterHandshakeOutcome::Accept
        }
    }
}

proof fn lemma_labels_differ()
    ensures
        encode_utf8(ALPN@) != encode_utf8(BRIDGE_ALPN@),
        encode_utf8(ALPN@) != encode_utf8(QUICK_ALPN@),
        encode_utf8(BRIDGE_ALPN@) != encode_utf8(QUICK_ALPN@),
{
    reveal_strlit("flextunnel/1");
    reveal_strlit("flextunnel-bridge/1");
    reveal_strlit("flextunnel-quick/1");
    encode_utf8_decode_utf8(ALPN@);
    encode_utf8_decode_utf8(BRIDGE_ALPN@);
    encode_utf8_decode_utf8(QUICK_ALPN@);
    assert(ALPN@.len() == 12);
    assert(BRIDGE_ALPN@.len() == 19);
    assert(QUICK_ALPN@.len() == 18);
}

/// Regular clients and this side's own dials are never gated.
pub proof fn law_clients_and_dials_pass(lists: AllowlistsView, alpn: Seq<u8>, remote: Seq<u8>)
    ensures
        outcome(lists, Side::Client, alpn, remote) == OutcomeView::Accept,
        outcome(lists, Side::Server, encode_utf8(ALPN@), remote) == OutcomeView::Accept,
{
    lemma_labels_differ();
}

/// A peer passes as a bridge, or in quick mode, exactly if its id is on the list for that label;
/// so an empty list turns the label off.
pub proof fn law_the_list_is_the_credential(lists: AllowlistsView, remote: Seq<u8>)
    ensures
        outcome(lists, Side::Server, encode_utf8(BRIDGE_ALPN@), remote) == OutcomeView::Accept
            <==> lists.bridge_servers.contains(remote),
        outcome(lists, Side::Server, encode_utf8(QUICK_ALPN@), remote) == OutcomeView::Accept
            <==> lists.quick_clients.contains(remote),
{
    lemma_labels_differ();
}

/// What an endpoint is bound with.
#[derive(Debug)]
pub struct EndpointPlan {
    /// Whether its address is published for discovery.
    pub publish_address: bool,
    /// The protocol labels that it accepts.
    pub alpns: Vec<String>,
    /// The secret key of its identity; `None` for an ephemeral one.
    pub secret: Option<[u8; 32]>,
}

/// A server is published, keeps its identity and accepts all three labels.
pub fn server_plan(secret: [u8; 32]) -> (r: EndpointPlan)
    ensures
        r.publish_address,
        strings(r.alpns@) == seq![ALPN@, BRIDGE_ALPN@, QUICK_ALPN@],
        r.secret == Some(secret),
{
    let mut alpns: Vec<String> = Vec::new();
    alpns.push(String::from_str(ALPN));
    alpns.push(String::from_str(BRIDGE_ALPN));
    alpns.push(String::from_str(QUICK_ALPN));
    assert(strings(alpns@) == seq![ALPN@, BRIDGE_ALPN@, QUICK_ALPN@]);
    EndpointPlan { publish_address: true, alpns, secret: Some(secret) }
}

/// A client only dials: it is never published, even with an identity of its own, and accepts
/// nothing.
pub fn client_plan(secret: Option<[u8; 32]>) -> (r: EndpointPlan)
    ensures
        !r.publish_address,
        r.alpns@.len() == 0,
        r.secret == secret,
{
    EndpointPlan { publish_address: false, alpns: Vec::new(), secret }
}

/// The endpoint in use, and how many rebuilds it took.
pub struct Current<E> {
    pub generation: u64,
    pub endpoint: E,
}

/// What a caller of a rebuild does once it is its turn.
#[derive(Debug, Clone, Copy, PartialEq, Eq, Structural)]
pub enum RebuildStep {
    /// Another caller has replaced the endpoint in the meantime: use that one.
    Joined,
    /// Build a fresh endpoint.
    Build,
}

/// What a caller does who saw generation `seen` when it asked, once it is its turn.
pub open spec fn rebuild_step(seen: u64, generation: u64) -> RebuildStep {
    if generation != seen {
        RebuildStep::Joined
    } else {
        RebuildStep::Build
    }
}

/// The endpoint in use once a build has ended: the fresh one, or still the old one where the build
/// failed.
pub open spec fn installed<E>(c: Current<E>, built: Result<E, String>) -> Current<E> {
    match built {
        Ok(fresh) => Current { generation: (c.generation + 1) as u64, endpoint: fresh },
        Err(_) => c,
    }
}

/// A client's endpoint, which can be replaced.
pub struct ClientEndpoint<E> {
    pub current: Current<E>,
}

impl<E> ClientEndpoint<E> {
    /// A handle on the first endpoint.
    pub fn from_parts(endpoint: E) -> (r: Self)
        ensures
            r.current.endpoint == endpoint,
            r.current.generation == 0,
    {
        ClientEndpoint { current: Current { generation: 0, endpoint } }
    }

    /// The endpoint in use.
    pub fn endpoint(&self) -> (r: &E)
        ensures
            *r == self.current.endpoint,
    {
        &self.current.endpoint
    }

    /// How many rebuilds it took to the endpoint in use.
    pub fn generation(&self) -> (r: u64)
        ensures
            r == self.current.generation,
    {
        self.current.generation
    }

    /// Says whether to build a fresh endpoint, for a caller who saw generation `seen` when it
    /// asked and whose turn it is.
    pub fn rebuild(&self, seen: u64) -> (r: RebuildStep)
        ensures
            r == rebuild_step(seen, self.current.generation),
    {
        if self.current.generation != seen {
            RebuildStep::Joined
        } else {
            RebuildStep::Build
        }
    }

    /// Takes a fresh endpoint into use and hands back the old one, to be closed. Where the build
    /// failed, the endpoint in use stays.
    pub fn install(&mut self, built: Result<E, String>) -> (r: Result<E, String>)
        requires
            old(self).current.generation < u64::MAX,
        ensures
            final(self).current == installed(old(self).current, built),
            match built {
                Ok(_) => r == Ok::<E, String>(old(self).current.endpoint),
                Err(e) => r == Err::<E, String>(e),
            },
    {
        match built {
            Ok(fresh) => {
                let mut endpoint = fresh;
                std::mem::swap(&mut self.current.endpoint, &mut endpoint);
                self.current.generation = self.current.generation + 1;
                Ok(endpoint)
            },
            Err(e) => Err(e),
        }
    }
}

/// What a caller does who saw generation `seen`, when the callers before it have had their turn.
/// Each of them, in order, is given by what its build gives if it builds.
pub open spec fn turn_step<E>(c: Current<E>, seen: u64, before: Seq<Result<E, String>>) -> RebuildStep {
    rebuild_step(seen, after_turns(c, seen, before).generation)
}

/// The endpoint in use after the turns of callers who all saw generation `seen`.
pub open spec fn after_turns<E>(c: Current<E>, seen: u64, callers: Seq<Result<E, String>>) -> Current<
    E,
>
    decreases callers.len(),
{
    if callers.len() == 0 {
        c
    } else {
        let before = after_turns(c, seen, callers.drop_last());
        match rebuild_step(seen, before.generation) {
            RebuildStep::Joined => before,
            RebuildStep::Build => installed(before, callers.last()),
        }
    }
}

/// The first caller whose build succeeds.
pub open spec fn first_success<E>(callers: Seq<Result<E, String>>) -> Option<int>
    decreases callers.len(),
{
    if callers.len() == 0 {
        None
    } else {
        match first_success(callers.drop_last()) {
            Some(k) => Some(k),
            None => if callers.last() is Ok {
                Some(callers.len() - 1)
            } else {
                None
            },
        }
    }
}

/// Callers who notice the same outage build one endpoint between them, in whatever order they get
/// their turn: up to the first whose build succeeds they build, one after the other, and all after
/// it join it, so that its endpoint stays in use. Where every build fails, the old endpoint stays.
/// One who asks when they are done builds again.
pub proof fn law_rebuilds_coalesce<E>(c: Current<E>, callers: Seq<Result<E, String>>, i: int)
    requires
        c.generation < u64::MAX,
        0 <= i < callers.len(),
    ensures
        after_turns(c, c.generation, callers) == (match first_success(callers) {
            Some(k) => installed(c, callers[k]),
            None => c,
        }),
        first_success(callers) matches Some(k) ==> 0 <= k < callers.len() && callers[k] is Ok
            && forall|j: int| 0 <= j < k ==> (#[trigger] callers[j]) is Err,
        turn_step(c, c.generation, callers.take(i)) == (match first_success(callers) {
            Some(k) => if i <= k {
                RebuildStep::Build
            } else {
                RebuildStep::Joined
            },
            None => RebuildStep::Build,
        }),
        rebuild_step(
            after_turns(c, c.generation, callers).generation,
            after_turns(c, c.generation, callers).generation,
        ) == RebuildStep::Build,
{
    lemma_turns(c, callers);
    lemma_turns(c, callers.take(i));
    lemma_first_success(callers, i);
}

proof fn lemma_turns<E>(c: Current<E>, callers: Seq<Result<E, String>>)
    requires
        c.generation < u64::MAX,
    ensures
        after_turns(c, c.generation, callers) == (match first_success(callers) {
            Some(k) => installed(c, callers[k]),
            None => c,
        }),
        match first_success(callers) {
            Some(k) => 0 <= k < callers.len() && callers[k] is Ok && forall|j: int|
                0 <= j < k ==> (#[trigger] callers[j]) is Err,
            None => forall|j: int| 0 <= j < callers.len() ==> (#[trigger] callers[j]) is Err,
        },
    decreases callers.len(),
{
    if callers.len() > 0 {
        let init = callers.drop_last();
        lemma_turns(c, init);
        assert forall|j: int| 0 <= j < init.len() implies #[trigger] callers[j] == init[j] by {}
    }
}

proof fn lemma_first_success<E>(callers: Seq<Result<E, String>>, i: int)
    requires
        0 <= i <= callers.len(),
    ensures
        first_success(callers.take(i)) == (match first_success(callers) {
            Some(k) => if k < i {
                Some(k)
            } else {
                None
            },
            None => None,
        }),
    decreases callers.len(),
{
    if i == callers.len() {
        assert(callers.take(i) == callers);
        lemma_success_in_range(callers);
    } else {
        let init = callers.drop_last();
        assert(init.take(i) == callers.take(i));
        lemma_first_success(init, i);
        lemma_success_in_range(init);
    }
}

proof fn lemma_success_in_range<E>(callers: Seq<Result<E, String>>)
    ensures
        first_success(callers) matches Some(k) ==> 0 <= k < callers.len(),
    decreases callers.len(),
{
    if callers.len() > 0 {
        lemma_success_in_range(callers.drop_last());
    }
}

} // verus!
