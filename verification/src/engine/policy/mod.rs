//! Policies and the chain that runs them.

pub mod budget;
pub mod config;
pub mod history;
pub mod limits;
pub mod store;
pub mod threshold;
pub mod trace;

use vstd::prelude::*;

use crate::engine::action::{Action, ActionView};
use crate::engine::identity::Identity;

verus! {

/// What a policy, or the whole chain of them, decides about an action.
#[derive(Debug, Clone)]
pub enum Decision {
    Allow,
    Block { reason: String },
}

impl View for Decision {
    /// The reason of a block; nothing for an allow.
    type V = Option<Seq<char>>;

    open spec fn view(&self) -> Option<Seq<char>> {
        match self {
            Decision::Allow => None,
            Decision::Block { reason } => Some(reason@),
        }
    }
}

/// What a policy may consult besides the action.
pub struct PolicyContext {
    pub identity: Identity,
}

/// A rule that decides about actions. Deciding may change what the rule
/// remembers. A rule that states nothing about itself may decide anything.
pub trait Policy: Sized {
    /// What holds of a rule's memory between two decisions.
    open spec fn valid(self) -> bool {
        true
    }

    /// Whether a rule in state `before`, asked about `action` by `identity`,
    /// may give `decision` and be left in state `after`.
    open spec fn may_decide(
        before: Self,
        action: ActionView,
        identity: Seq<char>,
        decision: Option<Seq<char>>,
        after: Self,
    ) -> bool {
        true
    }

    /// Decides about one action.
    fn evaluate(&mut self, action: &Action, ctx: &PolicyContext) -> (decision: Decision)
        requires
            old(self).valid(),
        ensures
            final(self).valid(),
            Self::may_decide(*old(self), action@, ctx.identity@, decision@, *final(self)),
    ;
}

/// Whether a chain of rules may give `decision`: the rules before the
/// `asked`-th all allowed, that one blocked (or there was none left to ask),
/// and no later rule was consulted.
pub open spec fn chain_decides<P: Policy>(
    before: Seq<P>,
    action: ActionView,
    identity: Seq<char>,
    decision: Option<Seq<char>>,
    after: Seq<P>,
    asked: int,
) -> bool {
    &&& after.len() == before.len()
    &&& 0 <= asked <= before.len()
    &&& forall|i: int|
        0 <= i < asked ==> P::may_decide(#[trigger] before[i], action, identity, None, after[i])
    &&& forall|i: int| asked < i < before.len() ==> after[i] == #[trigger] before[i]
    &&& if asked < before.len() {
        decision is Some && P::may_decide(
            before[asked],
            action,
            identity,
            decision,
            after[asked],
        )
    } else {
        decision is None
    }
}

/// Runs the policies in order and stops at the first block, so that the
/// caller gets one authoritative decision.
pub fn evaluate_all<P: Policy>(
    policies: &mut Vec<P>,
    action: &Action,
    ctx: &PolicyContext,
) -> (decision: Decision)
    requires
        forall|i: int| 0 <= i < old(policies)@.len() ==> (#[trigger] old(policies)@[i]).valid(),
    ensures
        forall|i: int| 0 <= i < final(policies)@.len() ==> (#[trigger] final(policies)@[i]).valid(),
        exists|asked: int| #[trigger]
            chain_decides(
                old(policies)@,
                action@,
                ctx.identity@,
                decision@,
                final(policies)@,
                asked,
            ),
{
    let mut i: usize = 0;
    while i < policies.len()
        invariant
            i <= policies@.len(),
            policies@.len() == old(policies)@.len(),
            forall|j: int| 0 <= j < policies@.len() ==> (#[trigger] policies@[j]).valid(),
            forall|j: int|
                0 <= j < i ==> P::may_decide(
                    #[trigger] old(policies)@[j],
                    action@,
                    ctx.identity@,
                    None,
                    policies@[j],
                ),
            forall|j: int| i <= j < policies@.len() ==> #[trigger] old(policies)@[j] == policies@[j],
        decreases policies.len() - i,
    {
        match policies[i].evaluate(action, ctx) {
            Decision::Block { reason } => {
                let decision = Decision::Block { reason };
                assert(chain_decides(
                    old(policies)@,
                    action@,
                    ctx.identity@,
                    decision@,
                    policies@,
                    i as int,
                ));
                return decision;
            },
            Decision::Allow => {},
        }
        i += 1;
    }
    let decision = Decision::Allow;
    assert(chain_decides(
        old(policies)@,
        action@,
        ctx.identity@,
        decision@,
        policies@,
        policies@.len() as int,
    ));
    decision
}

/// A chain without rules allows everything.
pub proof fn empty_chain_allows<P: Policy>(
    action: ActionView,
    identity: Seq<char>,
    decision: Option<Seq<char>>,
    after: Seq<P>,
    asked: int,
)
    requires
        chain_decides(Seq::<P>::empty(), action, identity, decision, after, asked),
    ensures
        decision is None,
        after.len() == 0,
{
}

/// A chain gives the verdict of the first rule that blocks, with its reason:
/// every rule before that one was asked and allowed, and none after it was
/// asked. If none blocks, all were asked, and the action is allowed.
pub proof fn the_first_block_decides<P: Policy>(
    before: Seq<P>,
    action: ActionView,
    identity: Seq<char>,
    decision: Option<Seq<char>>,
    after: Seq<P>,
    asked: int,
)
    requires
        chain_decides(before, action, identity, decision, after, asked),
    ensures
        after.len() == before.len(),
        decision is None ==> forall|i: int|
            0 <= i < before.len() ==> P::may_decide(
                #[trigger] before[i],
                action,
                identity,
                None,
                after[i],
            ),
        decision is Some ==> {
            &&& 0 <= asked < before.len()
            &&& P::may_decide(before[asked], action, identity, decision, after[asked])
            &&& forall|i: int|
                0 <= i < asked ==> P::may_decide(
                    #[trigger] before[i],
                    action,
                    identity,
                    None,
                    after[i],
                )
            &&& forall|i: int| asked < i < before.len() ==> after[i] == #[trigger] before[i]
        },
{
}

/// A decision allows or blocks, and one that blocks says why, word for word.
pub proof fn decisions_are_known_by_their_reason(reason: String, other: String)
    ensures
        Decision::Allow@ is None,
        (Decision::Block { reason })@ == Some(reason@),
        (Decision::Block { reason })@ == (Decision::Block { reason: other })@ <==> reason@
            == other@,
{
}

}
