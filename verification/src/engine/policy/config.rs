//! Policies as they are configured.

use vstd::prelude::*;

use crate::engine::policy::store;
use crate::engine::policy::store::Anchor;
use crate::engine::policy::threshold;
use crate::engine::policy::threshold::{ThresholdConfig, ThresholdPolicy};
use crate::engine::time;
use crate::engine::time::{Clock, Duration, Instant};

verus! {

/// Why policies cannot be loaded.
#[derive(Debug, Clone, PartialEq, Eq)]
pub enum PolicyConfigError {
    /// The file cannot be read.
    Read { path: String },
    /// The file does not hold policies.
    Parse { path: String },
}

impl PolicyConfigError {
    /// What the error reads.
    pub open spec fn text(self) -> Seq<char> {
        match self {
            PolicyConfigError::Read { path } => "reading policy file "@ + path@
                + " (copy policies/ldap.example.toml to get started)"@,
            PolicyConfigError::Parse { path } => "parsing policy file "@ + path@,
        }
    }

    /// The text of the error.
    pub fn message(&self) -> (message: String)
        ensures
            message@ == self.text(),
    {
        match self {
            PolicyConfigError::Read { path } => {
                let mut message = "reading policy file ".to_owned();
                message.append(path.as_str());
                message.append(" (copy policies/ldap.example.toml to get started)");
                message
            },
            PolicyConfigError::Parse { path } => {
                let mut message = "parsing policy file ".to_owned();
                message.append(path.as_str());
                message
            },
        }
    }
}

/// How often history is synchronized with its store unless configured
/// otherwise.
pub fn default_flush_interval() -> (interval: Duration)
    ensures
        interval.total_nanos() == 2 * 1_000_000_000,
{
    Duration::from_secs(2)
}

/// How many identities a history remembers unless configured otherwise.
pub fn default_max_tracked_identities() -> (n: usize)
    ensures
        n == 100_000,
{
    100_000
}

/// A store that was opened for a policy, with the rows it held, if they could
/// be read.
#[derive(Debug)]
pub struct OpenedStore {
    pub clock: Clock,
    pub anchor: Anchor,
    pub rows: Option<Vec<(String, Vec<i64>)>>,
}

/// One configured policy.
#[derive(Debug)]
pub enum PolicyEntry {
    Threshold(ThresholdConfig),
}

impl PolicyEntry {
    pub open spec fn config(self) -> ThresholdConfig {
        match self {
            PolicyEntry::Threshold(config) => config,
        }
    }

    /// Whether a policy is one made of this entry and the store opened for
    /// it.
    pub open spec fn makes(self, opened: Option<OpenedStore>, policy: ThresholdPolicy) -> bool {
        &&& policy.wf()
        &&& policy.config() == self.config()
        &&& match opened {
            None => {
                &&& policy@.history == Map::<Seq<char>, Seq<Instant>>::empty()
                &&& policy@.unsaved is None
            },
            Some(opened) => {
                &&& policy.clock() == opened.clock
                &&& policy@.unsaved == Some(Seq::<(Seq<char>, Instant)>::empty())
                &&& match opened.rows {
                    None => policy@.history == Map::<Seq<char>, Seq<Instant>>::empty(),
                    Some(rows) => exists|now: Instant| #[trigger]
                        threshold::refreshes(
                            self.config(),
                            Map::<Seq<char>, Seq<Instant>>::empty(),
                            opened.anchor,
                            store::grouped_view(rows@),
                            now,
                            policy@.history,
                        ) && time::is_reading(now),
                }
            },
        }
    }

    /// Makes the policy. Without a store, because none is configured or
    /// because it could not be opened, the policy keeps its memory to itself.
    pub fn build(self, opened: Option<OpenedStore>) -> (policy: ThresholdPolicy)
        ensures
            self.makes(opened, policy),
    {
        match self {
            PolicyEntry::Threshold(config) => match opened {
                None => ThresholdPolicy::new(config),
                Some(opened) => ThresholdPolicy::with_store(
                    config,
                    opened.clock,
                    &opened.anchor,
                    opened.rows,
                ),
            },
        }
    }
}

/// Whether policies are those made of entries, in the same order.
pub open spec fn made_of(
    policies: Seq<ThresholdPolicy>,
    entries: Seq<(PolicyEntry, Option<OpenedStore>)>,
) -> bool {
    &&& policies.len() == entries.len()
    &&& forall|i: int|
        0 <= i < entries.len() ==> entries[i].0.makes(entries[i].1, #[trigger] policies[i])
}

/// Makes the configured policies, in the order they are configured in.
pub fn build_policies(entries: Vec<(PolicyEntry, Option<OpenedStore>)>) -> (policies: Vec<
    ThresholdPolicy,
>)
    ensures
        made_of(policies@, entries@),
{
    let ghost all = entries@;
    let mut left = entries;
    let mut in_turn: Vec<(PolicyEntry, Option<OpenedStore>)> = Vec::new();
    while left.len() > 0
        invariant
            left@.len() + in_turn@.len() == all.len(),
            left@ == all.take(left@.len() as int),
            forall|i: int|
                0 <= i < in_turn@.len() ==> #[trigger] in_turn@[i] == all[all.len() - 1 - i],
        decreases left.len(),
    {
        let ghost n = left@.len() as int;
        if let Some(entry) = left.pop() {
            assert(entry == all[n - 1]);
            in_turn.push(entry);
        }
        assert(left@ =~= all.take(n - 1));
    }
    let mut policies: Vec<ThresholdPolicy> = Vec::new();
    while in_turn.len() > 0
        invariant
            policies@.len() + in_turn@.len() == all.len(),
            forall|i: int|
                0 <= i < in_turn@.len() ==> #[trigger] in_turn@[i] == all[all.len() - 1 - i],
            forall|i: int|
                0 <= i < policies@.len() ==> all[i].0.makes(all[i].1, #[trigger] policies@[i]),
        decreases in_turn.len(),
    {
        let ghost done = policies@.len() as int;
        if let Some((entry, opened)) = in_turn.pop() {
            assert((entry, opened) == all[done]);
            policies.push(entry.build(opened));
        }
    }
    policies
}

/// What errors in loading policies read: which file it is, and what to do
/// about one that cannot be read.
pub proof fn policy_errors_read(path: String)
    ensures
        (PolicyConfigError::Read { path }).text() == "reading policy file "@ + path@
            + " (copy policies/ldap.example.toml to get started)"@,
        (PolicyConfigError::Parse { path }).text() == "parsing policy file "@ + path@,
{
}

/// Each configured entry makes one policy, in its place, with its own
/// settings; without a store the policy remembers nothing at first and saves
/// nothing, and with one it has nothing to save yet.
pub proof fn policies_are_made_in_order(
    policies: Seq<ThresholdPolicy>,
    entries: Seq<(PolicyEntry, Option<OpenedStore>)>,
    at: int,
    identity: Seq<char>,
)
    requires
        made_of(policies, entries),
        0 <= at < entries.len(),
    ensures
        policies.len() == entries.len(),
        entries[at].0 == PolicyEntry::Threshold(policies[at].config()),
        entries[at].1 is None ==> policies[at]@.unsaved is None
            && !policies[at]@.history.dom().contains(identity),
        entries[at].1 matches Some(opened) ==> {
            &&& policies[at]@.unsaved matches Some(unsaved)
            &&& unsaved.len() == 0
            &&& opened.rows is None ==> !policies[at]@.history.dom().contains(identity)
        },
{
    assert(entries[at].0.makes(entries[at].1, policies[at]));
}

}
