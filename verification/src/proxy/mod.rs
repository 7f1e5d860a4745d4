//! What the proxy decides about connections and frames.

pub mod listener;

use std::collections::HashMap;

use vstd::prelude::*;

use crate::engine::action::ActionView;
use crate::engine::audit;
use crate::engine::audit::LogRecord;
use crate::engine::connector::{Connector, ConnectorError};
use crate::engine::identity;
use crate::engine::identity::Identity;
use crate::engine::metrics;
use crate::engine::metrics::{MetricUpdate, MetricUpdateView};
use crate::engine::net::SocketAddr;
use crate::engine::policy;
use crate::engine::policy::{Decision, Policy, PolicyContext};
use crate::engine::time::Duration;

verus! {

/// Caps and timeouts that keep a slow client or a hung upstream from pinning
/// a connection's resources indefinitely.
#[derive(Debug, Clone, Copy)]
pub struct ConnectionLimits {
    /// How many connections are handled at once. One beyond that is accepted
    /// and closed at once, not queued.
    pub max_connections: usize,
    /// The deadline of every single read and write, on both hops.
    pub io_timeout: Duration,
    /// How long connections in flight may take to finish once shutdown is
    /// requested.
    pub shutdown_timeout: Duration,
}

impl Default for ConnectionLimits {
    fn default() -> (limits: ConnectionLimits)
        ensures
            limits.max_connections == 1024,
            limits.io_timeout.secs() == 60,
            limits.io_timeout.subsec_nanos() == 0,
            limits.shutdown_timeout.secs() == 30,
            limits.shutdown_timeout.subsec_nanos() == 0,
    {
        ConnectionLimits {
            max_connections: 1024,
            io_timeout: Duration::from_secs(60),
            shutdown_timeout: Duration::from_secs(30),
        }
    }
}

/// How many unresolved claims of an identity one connection can have.
pub const MAX_PENDING_BINDS: usize = 1024;

/// Whether `id` is the smallest of the staged message IDs.
pub open spec fn is_oldest(pending: Map<u32, Seq<char>>, id: u32) -> bool {
    pending.dom().contains(id) && forall|other: u32| #[trigger]
        pending.dom().contains(other) ==> id <= other
}

/// The smallest of the staged message IDs.
pub open spec fn oldest(pending: Map<u32, Seq<char>>) -> u32 {
    choose|id: u32| is_oldest(pending, id)
}

/// The claims after one more has been staged. When there are too many already
/// and this one is not a repetition, the one with the smallest message ID
/// makes room for it.
pub open spec fn staged(pending: Map<u32, Seq<char>>, id: u32, dn: Seq<char>) -> Map<
    u32,
    Seq<char>,
> {
    if pending.dom().len() >= MAX_PENDING_BINDS && !pending.dom().contains(id) {
        pending.remove(oldest(pending)).insert(id, dn)
    } else {
        pending.insert(id, dn)
    }
}

/// The staged claims as mathematical values.
pub open spec fn claims(pending: Map<u32, String>) -> Map<u32, Seq<char>> {
    pending.map_values(|dn: String| dn@)
}

fn smallest_key(pending: &HashMap<u32, String>) -> (smallest: Option<u32>)
    ensures
        pending@.dom().finite(),
        match smallest {
            Some(id) => is_oldest(claims(pending@), id),
            None => pending@.dom().len() == 0,
        },
{
    broadcast use vstd::std_specs::hash::group_hash_axioms;

    let mut smallest: Option<u32> = None;
    for key in keys: pending.keys()
        invariant
            keys.seq().unref().to_set() == pending@.dom(),
            keys.seq().len() == pending@.dom().len(),
            smallest is None ==> keys.index() == 0,
            smallest matches Some(id) ==> keys.seq().unref().contains(id) && forall|j: int|
                0 <= j < keys.index() ==> id <= *#[trigger] keys.seq()[j],
    {
        assert(keys.seq().unref()[keys.index()] == *key);
        match smallest {
            Some(id) => if *key < id {
                smallest = Some(*key);
            },
            None => {
                smallest = Some(*key);
            },
        }
    }
    smallest
}

proof fn lemma_oldest(pending: Map<u32, Seq<char>>, id: u32)
    requires
        is_oldest(pending, id),
    ensures
        oldest(pending) == id,
{
    let chosen = oldest(pending);
    assert(pending.dom().contains(chosen) && pending.dom().contains(id));
}

/// Stages the claim of an identity under the message ID of its request, and
/// returns the message ID of the claim that had to make room, if any.
pub fn stage_pending_bind(pending: &mut HashMap<u32, String>, message_id: u32, dn: String) -> (evicted:
    Option<u32>)
    ensures
        claims(final(pending)@) == staged(claims(old(pending)@), message_id, dn@),
        match evicted {
            Some(id) => {
                &&& old(pending)@.dom().len() >= MAX_PENDING_BINDS
                &&& !old(pending)@.dom().contains(message_id)
                &&& id == oldest(claims(old(pending)@))
            },
            None => old(pending)@.dom().len() < MAX_PENDING_BINDS || old(pending)@.dom().contains(
                message_id,
            ),
        },
{
    broadcast use vstd::std_specs::hash::group_hash_axioms;

    assert(claims(pending@).dom() =~= pending@.dom());
    let mut evicted: Option<u32> = None;
    if pending.len() >= MAX_PENDING_BINDS && !pending.contains_key(&message_id) {
        if let Some(id) = smallest_key(pending) {
            proof {
                lemma_oldest(claims(pending@), id);
            }
            pending.remove(&id);
            evicted = Some(id);
        }
    }
    let ghost room = pending@;
    pending.insert(message_id, dn);
    assert(claims(pending@) =~= claims(room).insert(message_id, dn@));
    proof {
        if evicted is Some {
            assert(claims(room) =~= claims(old(pending)@).remove(oldest(claims(old(pending)@))));
        }
    }
    evicted
}

/// What one connection knows of its client: the identity it acts under, and
/// the identities it has claimed and not yet been granted.
pub struct BindState {
    identity: Identity,
    pending: HashMap<u32, String>,
}

/// A [`BindState`] as a mathematical value.
pub struct BindView {
    pub identity: Seq<char>,
    pub pending: Map<u32, Seq<char>>,
}

impl View for BindState {
    type V = BindView;

    closed spec fn view(&self) -> BindView {
        BindView { identity: self.identity@, pending: claims(self.pending@) }
    }
}

/// The state after a frame that may claim an identity.
pub open spec fn after_request(state: BindView, claim: Option<(u32, Seq<char>)>) -> BindView {
    match claim {
        Some((id, dn)) => BindView { pending: staged(state.pending, id, dn), ..state },
        None => state,
    }
}

/// The state after a frame that may answer a claim.
pub open spec fn after_response(state: BindView, outcome: Option<(u32, bool)>) -> BindView {
    match outcome {
        Some((id, success)) => if state.pending.dom().contains(id) {
            BindView {
                identity: if success {
                    identity::dn_identity(state.pending[id])
                } else {
                    state.identity
                },
                pending: state.pending.remove(id),
            }
        } else {
            state
        },
        None => state,
    }
}

impl BindState {
    /// The state of a fresh connection from `peer`.
    pub fn new(peer: SocketAddr) -> (state: BindState)
        ensures
            state@.identity == identity::peer_identity(peer.ip@),
            state@.pending == Map::<u32, Seq<char>>::empty(),
    {
        broadcast use vstd::std_specs::hash::group_hash_axioms;

        let state = BindState {
            identity: Identity::from_peer_addr(peer),
            pending: HashMap::new(),
        };
        assert(state@.pending =~= Map::<u32, Seq<char>>::empty());
        state
    }

    /// The identity that the connection acts under.
    pub fn identity(&self) -> (identity: &Identity)
        ensures
            identity@ == self@.identity,
    {
        &self.identity
    }
}

/// Takes note of a frame from the upstream. If it answers a staged claim, the
/// claim is settled: the connection acts under the claimed identity from now
/// on if the answer is a success, and the claim is dropped either way.
pub fn resolve_pending_bind<C: Connector>(
    connector: &C,
    state: &mut BindState,
    frame: &[u8],
) -> (noted: Result<(), ConnectorError>)
    ensures
        match connector.outcome_in(frame@) {
            Ok(outcome) => noted is Ok && final(state)@ == after_response(old(state)@, outcome),
            Err(error) => noted == Err::<(), ConnectorError>(error) && final(state)@ == old(state)@,
        },
{
    broadcast use vstd::std_specs::hash::group_hash_axioms;

    let (message_id, success) = match connector.bind_response(frame) {
        Ok(Some(outcome)) => outcome,
        Ok(None) => {
            return Ok(());
        },
        Err(error) => {
            return Err(error);
        },
    };
    let ghost before = state.pending@;
    if let Some(dn) = state.pending.remove(&message_id) {
        assert(claims(state.pending@) =~= claims(before).remove(message_id));
        assert(claims(before)[message_id] == dn@);
        if success {
            state.identity = Identity::from_bind_dn(dn);
        }
    } else {
        assert(!claims(before).dom().contains(message_id));
        assert(state.pending@ =~= before);
    }
    Ok(())
}

/// Where something has to be sent.
#[derive(Debug, Clone)]
pub enum Delivery {
    /// The client's frame goes to the upstream as it is.
    Forward,
    /// The client gets an answer, and the upstream gets nothing.
    Reject(Vec<u8>),
}

/// What comes of one frame of the client.
#[derive(Debug)]
pub struct FrameOutcome {
    /// What is sent where, unless the connection has to end.
    pub delivery: Result<Delivery, ConnectorError>,
    /// The records of the decision, if there was one to take.
    pub records: Option<(LogRecord, MetricUpdate)>,
    /// The message ID of a staged claim that had to make room.
    pub evicted: Option<u32>,
}

/// The message ID of the claim that has to make room for another one.
pub open spec fn evicted_by(state: BindView, claim: Option<(u32, Seq<char>)>) -> Option<u32> {
    match claim {
        Some((id, _)) => if state.pending.dom().len() >= MAX_PENDING_BINDS
            && !state.pending.dom().contains(id) {
            Some(oldest(state.pending))
        } else {
            None
        },
        None => None,
    }
}

/// Whether an outcome holds no records.
pub open spec fn unrecorded(outcome: FrameOutcome) -> bool {
    outcome.records is None
}

/// Whether an outcome holds the records of a decision.
pub open spec fn recorded(
    outcome: FrameOutcome,
    identity: Seq<char>,
    action: ActionView,
    decision: Option<Seq<char>>,
) -> bool {
    &&& outcome.records matches Some((record, update))
    &&& record@ == audit::record_of(identity, action, decision)
    &&& update@ == (MetricUpdateView::Count {
        name: metrics::POLICY_DECISIONS_TOTAL@,
        labels: metrics::decision_labels(action, decision),
    })
}

/// Whether an outcome delivers what a decision about a frame calls for: the
/// frame to the upstream if it is allowed, and a refusal to the client if it
/// is not.
pub open spec fn delivers<C: Connector>(
    connector: C,
    frame: Seq<u8>,
    decision: Option<Seq<char>>,
    outcome: FrameOutcome,
) -> bool {
    match decision {
        None => outcome.delivery matches Ok(Delivery::Forward),
        Some(reason) => match connector.rejection_of(frame, reason) {
            Ok(octets) => outcome.delivery matches Ok(Delivery::Reject(answer)) && answer@
                == octets,
            Err(error) => outcome.delivery matches Err(e) && e == error,
        },
    }
}

/// Whether a frame of the client, met by a connection in state `before` with
/// the given policies, may have the given outcome.
pub open spec fn handles<C: Connector, P: Policy>(
    connector: C,
    before: BindView,
    policies: Seq<P>,
    frame: Seq<u8>,
    outcome: FrameOutcome,
    after: BindView,
    policies_after: Seq<P>,
) -> bool {
    match connector.claim_in(frame) {
        Err(error) => {
            &&& outcome.delivery matches Err(e)
            &&& e == error
            &&& unrecorded(outcome)
            &&& outcome.evicted is None
            &&& after == before
            &&& policies_after == policies
        },
        Ok(claim) => {
            &&& after == after_request(before, claim)
            &&& outcome.evicted == evicted_by(before, claim)
            &&& match connector.action_in(frame) {
                Err(error) => {
                    &&& outcome.delivery matches Err(e)
                    &&& e == error
                    &&& unrecorded(outcome)
                    &&& policies_after == policies
                },
                Ok(None) => {
                    &&& outcome.delivery matches Ok(Delivery::Forward)
                    &&& unrecorded(outcome)
                    &&& policies_after == policies
                },
                Ok(Some(action)) => exists|decision: Option<Seq<char>>, asked: int| #[trigger]
                    policy::chain_decides(
                        policies,
                        action,
                        before.identity,
                        decision,
                        policies_after,
                        asked,
                    ) && recorded(outcome, before.identity, action, decision) && delivers(
                        connector,
                        frame,
                        decision,
                        outcome,
                    ),
            }
        },
    }
}

/// Decides about one frame of the client. A claim of an identity is staged,
/// not trusted. A frame of no concern goes to the upstream. A policed one is
/// decided about by the policies, under the identity of the connection, and
/// reaches the upstream only if all of them allow it.
pub fn handle_client_frame<C: Connector, P: Policy>(
    connector: &C,
    policies: &mut Vec<P>,
    state: &mut BindState,
    frame: &[u8],
) -> (outcome: FrameOutcome)
    requires
        forall|i: int| 0 <= i < old(policies)@.len() ==> (#[trigger] old(policies)@[i]).valid(),
    ensures
        forall|i: int| 0 <= i < final(policies)@.len() ==> (#[trigger] final(policies)@[i]).valid(),
        handles(
            *connector,
            old(state)@,
            old(policies)@,
            frame@,
            outcome,
            final(state)@,
            final(policies)@,
        ),
{
    let mut evicted: Option<u32> = None;
    match connector.bind_request(frame) {
        Err(error) => {
            return FrameOutcome { delivery: Err(error), records: None, evicted };
        },
        Ok(None) => {},
        Ok(Some((message_id, dn))) => {
            assert(claims(state.pending@).dom() =~= state.pending@.dom());
            evicted = stage_pending_bind(&mut state.pending, message_id, dn);
        },
    }
    let action = match connector.decode(frame) {
        Err(error) => {
            return FrameOutcome { delivery: Err(error), records: None, evicted };
        },
        Ok(None) => {
            return FrameOutcome { delivery: Ok(Delivery::Forward), records: None, evicted };
        },
        Ok(Some(action)) => action,
    };
    let ctx = PolicyContext { identity: state.identity.duplicate() };
    let decision = policy::evaluate_all(policies, &action, &ctx);
    let ghost asked = choose|asked: int| #[trigger]
        policy::chain_decides(
            old(policies)@,
            action@,
            ctx.identity@,
            decision@,
            policies@,
            asked,
        );
    let records = Some(
        (
            audit::log_decision(&state.identity, &action, &decision),
            metrics::record_decision(&action, &decision),
        ),
    );
    let delivery = match &decision {
        Decision::Allow => Ok(Delivery::Forward),
        Decision::Block { reason } => match connector.build_rejection(frame, reason.as_str()) {
            Ok(answer) => Ok(Delivery::Reject(answer)),
            Err(error) => Err(error),
        },
    };
    let outcome = FrameOutcome { delivery, records, evicted };
    assert(policy::chain_decides(
        old(policies)@,
        action@,
        old(state)@.identity,
        decision@,
        policies@,
        asked,
    ));
    outcome
}

/// A connection never holds more claims than [`MAX_PENDING_BINDS`], however
/// many requests a client sends without reading an answer.
pub proof fn claims_stay_bounded(pending: Map<u32, Seq<char>>, id: u32, dn: Seq<char>)
    requires
        pending.dom().finite(),
        pending.dom().len() <= MAX_PENDING_BINDS,
    ensures
        staged(pending, id, dn).dom().finite(),
        staged(pending, id, dn).dom().len() <= MAX_PENDING_BINDS,
        staged(pending, id, dn).dom().contains(id),
        staged(pending, id, dn)[id] == dn,
{
    if pending.dom().len() >= MAX_PENDING_BINDS && !pending.dom().contains(id) {
        lemma_some_oldest(pending);
        assert(pending.remove(oldest(pending)).dom() =~= pending.dom().remove(oldest(pending)));
        assert(staged(pending, id, dn).dom() =~= pending.dom().remove(oldest(pending)).insert(id));
    } else {
        assert(staged(pending, id, dn).dom() =~= pending.dom().insert(id));
    }
}

proof fn lemma_some_oldest(pending: Map<u32, Seq<char>>)
    requires
        pending.dom().finite(),
        pending.dom().len() > 0,
    ensures
        is_oldest(pending, oldest(pending)),
{
    let id = lemma_minimum(pending.dom());
    assert(is_oldest(pending, id));
}

proof fn lemma_minimum(ids: Set<u32>) -> (id: u32)
    requires
        ids.finite(),
        ids.len() > 0,
    ensures
        ids.contains(id),
        forall|other: u32| #[trigger] ids.contains(other) ==> id <= other,
    decreases ids.len(),
{
    let some = ids.choose();
    let rest = ids.remove(some);
    if rest.len() == 0 {
        assert forall|other: u32| #[trigger] ids.contains(other) implies some <= other by {
            if other != some {
                assert(rest.contains(other));
            }
        }
        some
    } else {
        let least = lemma_minimum(rest);
        assert forall|other: u32| #[trigger] ids.contains(other) && other != some implies least
            <= other by {
            assert(rest.contains(other));
        }
        if some <= least {
            some
        } else {
            least
        }
    }
}

/// Claiming again under a message ID that is still unresolved replaces that
/// claim and drops no other.
pub proof fn restaging_evicts_nothing(
    pending: Map<u32, Seq<char>>,
    id: u32,
    dn: Seq<char>,
    other: u32,
)
    requires
        pending.dom().contains(id),
        pending.dom().contains(other),
        other != id,
    ensures
        staged(pending, id, dn).dom() == pending.dom(),
        staged(pending, id, dn)[other] == pending[other],
{
    assert(staged(pending, id, dn).dom() =~= pending.dom());
}

/// A policed frame reaches the upstream only if every policy allowed it, under
/// the identity the connection had.
pub proof fn only_allowed_actions_are_forwarded<C: Connector, P: Policy>(
    connector: C,
    before: BindView,
    policies: Seq<P>,
    frame: Seq<u8>,
    outcome: FrameOutcome,
    after: BindView,
    policies_after: Seq<P>,
    action: ActionView,
)
    requires
        handles(connector, before, policies, frame, outcome, after, policies_after),
        connector.action_in(frame) == Ok::<Option<ActionView>, ConnectorError>(Some(action)),
        outcome.delivery matches Ok(Delivery::Forward),
    ensures
        policies_after.len() == policies.len(),
        forall|i: int|
            0 <= i < policies.len() ==> P::may_decide(
                #[trigger] policies[i],
                action,
                before.identity,
                None,
                policies_after[i],
            ),
{
}

/// Every decision is recorded, allowed or blocked, and nothing else is.
pub proof fn every_decision_is_recorded<C: Connector, P: Policy>(
    connector: C,
    before: BindView,
    policies: Seq<P>,
    frame: Seq<u8>,
    outcome: FrameOutcome,
    after: BindView,
    policies_after: Seq<P>,
)
    requires
        handles(connector, before, policies, frame, outcome, after, policies_after),
    ensures
        outcome.records is Some <==> connector.claim_in(frame) is Ok && (connector.action_in(
            frame,
        ) matches Ok(Some(_))),
        outcome.delivery matches Ok(Delivery::Reject(_)) ==> outcome.records is Some,
{
}

/// A frame of the client never changes the identity of its connection.
pub proof fn requests_do_not_change_identity<C: Connector, P: Policy>(
    connector: C,
    before: BindView,
    policies: Seq<P>,
    frame: Seq<u8>,
    outcome: FrameOutcome,
    after: BindView,
    policies_after: Seq<P>,
)
    requires
        handles(connector, before, policies, frame, outcome, after, policies_after),
    ensures
        after.identity == before.identity,
{
}

/// A frame that passes through a connection.
pub enum Passage {
    FromClient { frame: Seq<u8> },
    FromUpstream { frame: Seq<u8> },
}

/// The state of a connection after a frame has passed through it.
pub open spec fn after_passage<C: Connector>(
    connector: C,
    state: BindView,
    passage: Passage,
) -> BindView {
    match passage {
        Passage::FromClient { frame } => match connector.claim_in(frame) {
            Ok(claim) => after_request(state, claim),
            Err(_) => state,
        },
        Passage::FromUpstream { frame } => match connector.outcome_in(frame) {
            Ok(outcome) => after_response(state, outcome),
            Err(_) => state,
        },
    }
}

/// The state of a connection from `ip` after some frames.
pub open spec fn state_after<C: Connector>(
    connector: C,
    ip: Seq<char>,
    passages: Seq<Passage>,
) -> BindView
    decreases passages.len(),
{
    if passages.len() == 0 {
        BindView { identity: identity::peer_identity(ip), pending: Map::empty() }
    } else {
        after_passage(
            connector,
            state_after(connector, ip, passages.drop_last()),
            passages.last(),
        )
    }
}

/// Whether the client sent a claim of `dn` under `id`.
pub open spec fn claims_in<C: Connector>(
    connector: C,
    passage: Passage,
    id: u32,
    dn: Seq<char>,
) -> bool {
    passage matches Passage::FromClient { frame } && connector.claim_in(frame) == Ok::<
        Option<(u32, Seq<char>)>,
        ConnectorError,
    >(Some((id, dn)))
}

/// Whether the upstream answered the claim under `id` with a success.
pub open spec fn confirms_in<C: Connector>(connector: C, passage: Passage, id: u32) -> bool {
    passage matches Passage::FromUpstream { frame } && connector.outcome_in(frame) == Ok::<
        Option<(u32, bool)>,
        ConnectorError,
    >(Some((id, true)))
}

/// Whether some earlier frame of the client claimed `dn` under `id`.
spec fn was_claimed<C: Connector>(
    connector: C,
    passages: Seq<Passage>,
    id: u32,
    dn: Seq<char>,
) -> bool {
    exists|i: int| 0 <= i < passages.len() && #[trigger] claims_in(connector, passages[i], id, dn)
}

/// Whether `dn` was claimed and then confirmed.
pub open spec fn was_confirmed<C: Connector>(
    connector: C,
    passages: Seq<Passage>,
    dn: Seq<char>,
) -> bool {
    exists|i: int, j: int, id: u32|
        0 <= i < j < passages.len() && #[trigger] claims_in(connector, passages[i], id, dn)
            && #[trigger] confirms_in(connector, passages[j], id)
}

proof fn lemma_claims_have_requests<C: Connector>(
    connector: C,
    ip: Seq<char>,
    passages: Seq<Passage>,
    id: u32,
)
    requires
        state_after(connector, ip, passages).pending.dom().contains(id),
    ensures
        was_claimed(
            connector,
            passages,
            id,
            state_after(connector, ip, passages).pending[id],
        ),
    decreases passages.len(),
{
    if passages.len() > 0 {
        let last = passages.len() - 1;
        let earlier = passages.drop_last();
        let before = state_after(connector, ip, earlier);
        let now = state_after(connector, ip, passages);
        if before.pending.dom().contains(id) && now.pending[id] == before.pending[id] {
            lemma_claims_have_requests(connector, ip, earlier, id);
            let i = choose|i: int|
                0 <= i < earlier.len() && #[trigger] claims_in(
                    connector,
                    earlier[i],
                    id,
                    before.pending[id],
                );
            assert(claims_in(connector, passages[i], id, now.pending[id]));
        } else {
            assert(claims_in(connector, passages[last], id, now.pending[id]));
        }
    }
}

/// A connection acts under its client's address, or under a DN that the
/// client claimed and that the upstream then confirmed under the same message
/// ID. Nothing else a client sends can change who it is taken for.
pub proof fn identities_are_confirmed<C: Connector>(
    connector: C,
    ip: Seq<char>,
    passages: Seq<Passage>,
)
    ensures
        ({
            let identity = state_after(connector, ip, passages).identity;
            identity == identity::peer_identity(ip) || exists|dn: Seq<char>| #[trigger]
                was_confirmed(connector, passages, dn) && identity == identity::dn_identity(dn)
        }),
    decreases passages.len(),
{
    if passages.len() > 0 {
        let last = passages.len() - 1;
        let earlier = passages.drop_last();
        let before = state_after(connector, ip, earlier);
        let now = state_after(connector, ip, passages);
        if now.identity == before.identity {
            identities_are_confirmed(connector, ip, earlier);
            if before.identity != identity::peer_identity(ip) {
                let dn = choose|dn: Seq<char>| #[trigger]
                    was_confirmed(connector, earlier, dn) && before.identity
                        == identity::dn_identity(dn);
                let (i, j, id) = choose|i: int, j: int, id: u32|
                    0 <= i < j < earlier.len() && #[trigger] claims_in(
                        connector,
                        earlier[i],
                        id,
                        dn,
                    ) && #[trigger] confirms_in(connector, earlier[j], id);
                assert(claims_in(connector, passages[i], id, dn));
                assert(confirms_in(connector, passages[j], id));
                assert(was_confirmed(connector, passages, dn));
            }
        } else {
            let frame = passages[last]->FromUpstream_frame;
            let (id, success) = connector.outcome_in(frame)->Ok_0->0;
            let dn = before.pending[id];
            lemma_claims_have_requests(connector, ip, earlier, id);
            let i = choose|i: int|
                0 <= i < earlier.len() && #[trigger] claims_in(connector, earlier[i], id, dn);
            assert(claims_in(connector, passages[i], id, dn));
            assert(confirms_in(connector, passages[last], id));
            assert(was_confirmed(connector, passages, dn));
        }
    }
}

/// What an answer of the upstream does to a connection: a success for a staged
/// claim makes the connection act under the claimed DN from now on, whoever it
/// acted for before; a failure, and an answer to a claim that is not staged,
/// leave the identity as it is. The answered claim is settled either way, and
/// no other one is touched.
pub proof fn answers_settle_their_claims(state: BindView, id: u32, success: bool, other: u32)
    ensures
        ({
            let after = after_response(state, Some((id, success)));
            &&& state.pending.dom().contains(id) && success ==> after.identity == seq![
                'd',
                'n',
                ':',
            ] + state.pending[id]
            &&& !state.pending.dom().contains(id) || !success ==> after.identity == state.identity
            &&& !after.pending.dom().contains(id)
            &&& other != id ==> (after.pending.dom().contains(other)
                <==> state.pending.dom().contains(other)) && after.pending[other]
                == state.pending[other]
        }),
        after_response(state, None) == state,
{
    reveal_strlit("dn:");
    assert("dn:"@ =~= seq!['d', 'n', ':']);
}

/// What a claim of the client does to a connection: it is staged under its
/// message ID, in the place of an unsettled one of the same ID, and the
/// identity stays as it is. Only where 1024 others are staged already one of
/// them makes room, the one with the smallest message ID; and it is reported.
pub proof fn claims_are_staged(state: BindView, id: u32, dn: Seq<char>, other: u32)
    requires
        state.pending.dom().finite(),
        other != id,
    ensures
        ({
            let after = after_request(state, Some((id, dn)));
            let full = state.pending.dom().len() >= 1024 && !state.pending.dom().contains(id);
            &&& after.identity == state.identity
            &&& after.pending.dom().contains(id)
            &&& after.pending[id] == dn
            &&& after.pending.dom().contains(other) ==> state.pending.dom().contains(other)
                && after.pending[other] == state.pending[other]
            &&& match evicted_by(state, Some((id, dn))) {
                None => !full && (state.pending.dom().contains(other)
                    ==> after.pending.dom().contains(other)),
                Some(gone) => {
                    &&& full
                    &&& state.pending.dom().contains(gone)
                    &&& !after.pending.dom().contains(gone)
                    &&& state.pending.dom().contains(other) ==> gone <= other && (gone != other
                        ==> after.pending.dom().contains(other))
                },
            }
        }),
        after_request(state, None) == state,
        evicted_by(state, None) is None,
{
    if state.pending.dom().len() >= 1024 {
        lemma_some_oldest(state.pending);
    }
}

/// Whether the frame at `at` is a success for a claim of `dn` that is staged
/// then.
pub open spec fn confirms_at<C: Connector>(
    connector: C,
    ip: Seq<char>,
    passages: Seq<Passage>,
    at: int,
    dn: Seq<char>,
) -> bool {
    exists|id: u32| #[trigger]
        confirms_in(connector, passages[at], id) && {
            let pending = state_after(connector, ip, passages.take(at)).pending;
            pending.dom().contains(id) && pending[id] == dn
        }
}

/// Whether no frame from `from` on is a success for a staged claim.
pub open spec fn nothing_confirmed_since<C: Connector>(
    connector: C,
    ip: Seq<char>,
    passages: Seq<Passage>,
    from: int,
) -> bool {
    forall|at: int, dn: Seq<char>|
        from <= at < passages.len() ==> !#[trigger] confirms_at(connector, ip, passages, at, dn)
}

/// A connection acts under the DN of the claim that was confirmed last, and
/// under the address of its client as long as none was, whatever else passed
/// through it.
pub proof fn the_claim_confirmed_last_decides<C: Connector>(
    connector: C,
    ip: Seq<char>,
    passages: Seq<Passage>,
    at: int,
    dn: Seq<char>,
)
    ensures
        nothing_confirmed_since(connector, ip, passages, 0) ==> state_after(
            connector,
            ip,
            passages,
        ).identity == seq!['i', 'p', ':'] + ip,
        0 <= at < passages.len() && confirms_at(connector, ip, passages, at, dn)
            && nothing_confirmed_since(connector, ip, passages, at + 1) ==> state_after(
            connector,
            ip,
            passages,
        ).identity == seq!['d', 'n', ':'] + dn,
    decreases passages.len(),
{
    reveal_strlit("ip:");
    reveal_strlit("dn:");
    assert("ip:"@ =~= seq!['i', 'p', ':']);
    assert("dn:"@ =~= seq!['d', 'n', ':']);
    if passages.len() > 0 {
        let last = passages.len() - 1;
        let earlier = passages.drop_last();
        assert(passages.take(last) =~= earlier);
        assert forall|n: int, name: Seq<char>| 0 <= n < last implies #[trigger] confirms_at(
            connector,
            ip,
            passages,
            n,
            name,
        ) == confirms_at(connector, ip, earlier, n, name) by {
            assert(passages.take(n) =~= earlier.take(n));
            assert(passages[n] == earlier[n]);
            if confirms_at(connector, ip, passages, n, name) {
                let id = choose|id: u32| #[trigger]
                    confirms_in(connector, passages[n], id) && {
                        let pending = state_after(connector, ip, passages.take(n)).pending;
                        pending.dom().contains(id) && pending[id] == name
                    };
                assert(confirms_in(connector, earlier[n], id));
            }
            if confirms_at(connector, ip, earlier, n, name) {
                let id = choose|id: u32| #[trigger]
                    confirms_in(connector, earlier[n], id) && {
                        let pending = state_after(connector, ip, earlier.take(n)).pending;
                        pending.dom().contains(id) && pending[id] == name
                    };
                assert(confirms_in(connector, passages[n], id));
            }
        }
        if nothing_confirmed_since(connector, ip, passages, 0) {
            assert forall|n: int, name: Seq<char>| 0 <= n < earlier.len() implies !#[trigger]
                confirms_at(connector, ip, earlier, n, name) by {
                assert(!confirms_at(connector, ip, passages, n, name));
            }
        }
        if nothing_confirmed_since(connector, ip, passages, at + 1) {
            assert forall|n: int, name: Seq<char>|
                at + 1 <= n < earlier.len() && 0 <= n implies !#[trigger] confirms_at(
                connector,
                ip,
                earlier,
                n,
                name,
            ) by {
                assert(!confirms_at(connector, ip, passages, n, name));
            }
        }
        the_claim_confirmed_last_decides(connector, ip, earlier, at, dn);
        if at < last && nothing_confirmed_since(connector, ip, passages, last) {
            lemma_unconfirmed_keeps_identity(connector, ip, passages);
        }
        if 0 <= at < last && nothing_confirmed_since(connector, ip, passages, at + 1) {
            assert(nothing_confirmed_since(connector, ip, passages, last));
            assert(nothing_confirmed_since(connector, ip, earlier, at + 1));
        }
        if nothing_confirmed_since(connector, ip, passages, 0) {
            assert(nothing_confirmed_since(connector, ip, passages, last));
            lemma_unconfirmed_keeps_identity(connector, ip, passages);
        }
    }
}

proof fn lemma_unconfirmed_keeps_identity<C: Connector>(
    connector: C,
    ip: Seq<char>,
    passages: Seq<Passage>,
)
    requires
        passages.len() > 0,
        nothing_confirmed_since(connector, ip, passages, passages.len() - 1),
    ensures
        state_after(connector, ip, passages).identity == state_after(
            connector,
            ip,
            passages.drop_last(),
        ).identity,
{
    let last = passages.len() - 1;
    let before = state_after(connector, ip, passages.drop_last());
    assert(passages.take(last) =~= passages.drop_last());
    if let Passage::FromUpstream { frame } = passages.last() {
        if let Ok(Some((id, success))) = connector.outcome_in(frame) {
            if success && before.pending.dom().contains(id) {
                assert(confirms_in(connector, passages[last], id));
                assert(confirms_at(connector, ip, passages, last, before.pending[id]));
            }
        }
    }
}

/// What becomes of a frame of the client. One that cannot be read ends the
/// connection and changes nothing. One of no concern to policies is forwarded,
/// without their being asked. A policed one is forwarded if nobody blocked it;
/// if somebody did, the client gets the refusal for that reason and the
/// upstream gets nothing. Either way the decision is recorded, under the
/// identity that the connection had when the frame came.
pub proof fn frames_meet_their_fate<C: Connector, P: Policy>(
    connector: C,
    before: BindView,
    policies: Seq<P>,
    frame: Seq<u8>,
    outcome: FrameOutcome,
    after: BindView,
    policies_after: Seq<P>,
)
    requires
        handles(connector, before, policies, frame, outcome, after, policies_after),
    ensures
        match (connector.claim_in(frame), connector.action_in(frame)) {
            (Err(error), _) => {
                &&& outcome.delivery == Err::<Delivery, ConnectorError>(error)
                &&& outcome.records is None
                &&& outcome.evicted is None
                &&& after == before
                &&& policies_after == policies
            },
            (Ok(_), Err(error)) => {
                &&& outcome.delivery == Err::<Delivery, ConnectorError>(error)
                &&& outcome.records is None
                &&& policies_after == policies
            },
            (Ok(_), Ok(None)) => {
                &&& outcome.delivery matches Ok(Delivery::Forward)
                &&& outcome.records is None
                &&& policies_after == policies
            },
            (Ok(_), Ok(Some(action))) => {
                &&& outcome.records matches Some((record, update))
                &&& record@.backend == action.backend
                &&& record@.operation == action.operation
                &&& record@.blast_radius == action.blast_radius
                &&& record@.identity == audit::truncated(before.identity)
                &&& record@.target == audit::truncated(action.target)
                &&& record@ == audit::record_of(before.identity, action, record@.reason)
                &&& update@ matches MetricUpdateView::Count { name, labels }
                &&& name == "ai_protect_policy_decisions_total"@
                &&& labels == metrics::decision_labels(action, record@.reason)
                &&& match record@.reason {
                    None => {
                        &&& outcome.delivery matches Ok(Delivery::Forward)
                        &&& forall|i: int|
                            0 <= i < policies.len() ==> P::may_decide(
                                #[trigger] policies[i],
                                action,
                                before.identity,
                                None,
                                policies_after[i],
                            )
                    },
                    Some(reason) => {
                        &&& exists|i: int|
                            0 <= i < policies.len() && P::may_decide(
                                #[trigger] policies[i],
                                action,
                                before.identity,
                                Some(reason),
                                policies_after[i],
                            )
                        &&& match connector.rejection_of(frame, reason) {
                            Ok(octets) => outcome.delivery matches Ok(Delivery::Reject(answer))
                                && answer@ == octets,
                            Err(error) => outcome.delivery == Err::<Delivery, ConnectorError>(
                                error,
                            ),
                        }
                    },
                }
            },
        },
        connector.claim_in(frame) matches Ok(Some((id, dn))) ==> after.pending.dom().contains(id)
            && after.pending[id] == dn,
        connector.claim_in(frame) matches Ok(None) ==> after == before && outcome.evicted is None,
        after.identity == before.identity,
{
    if let (Ok(_), Ok(Some(action))) = (connector.claim_in(frame), connector.action_in(frame)) {
        let (decision, asked) = choose|decision: Option<Seq<char>>, asked: int| #[trigger]
            policy::chain_decides(
                policies,
                action,
                before.identity,
                decision,
                policies_after,
                asked,
            ) && recorded(outcome, before.identity, action, decision) && delivers(
                connector,
                frame,
                decision,
                outcome,
            );
        if let Some(reason) = decision {
            assert(P::may_decide(
                policies[asked],
                action,
                before.identity,
                Some(reason),
                policies_after[asked],
            ));
        }
    }
}

/// An answer that cannot be read, and one of no concern, leave a connection as
/// it was; so does a claim that cannot be read. Whatever else passes does what
/// its claim or its answer does.
pub proof fn passages_do_what_they_carry<C: Connector>(
    connector: C,
    ip: Seq<char>,
    passages: Seq<Passage>,
)
    requires
        passages.len() > 0,
    ensures
        ({
            let before = state_after(connector, ip, passages.drop_last());
            let after = state_after(connector, ip, passages);
            match passages.last() {
                Passage::FromClient { frame } => match connector.claim_in(frame) {
                    Ok(Some((id, dn))) => {
                        &&& after.identity == before.identity
                        &&& after.pending.dom().contains(id)
                        &&& after.pending[id] == dn
                    },
                    _ => after == before,
                },
                Passage::FromUpstream { frame } => match connector.outcome_in(frame) {
                    Ok(Some((id, success))) => {
                        &&& !after.pending.dom().contains(id)
                        &&& before.pending.dom().contains(id) && success ==> after.identity
                            == identity::dn_identity(before.pending[id])
                        &&& !before.pending.dom().contains(id) || !success ==> after.identity
                            == before.identity
                    },
                    _ => after == before,
                },
            }
        }),
        state_after(connector, ip, Seq::empty()).identity == identity::peer_identity(ip),
        state_after(connector, ip, Seq::empty()).pending.dom().len() == 0,
{
}

/// The value of staged claims is each claim under its message ID, word for
/// word.
pub proof fn claims_are_known_by_their_ids(pending: Map<u32, String>, id: u32)
    ensures
        claims(pending).dom().contains(id) <==> pending.dom().contains(id),
        pending.dom().contains(id) ==> claims(pending)[id] == pending[id]@,
{
}

}
