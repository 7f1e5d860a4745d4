//! The aggregate record: counters, gauges and histograms, as updates for
//! whichever recorder is installed.

use vstd::prelude::*;

use crate::engine::action::{Action, ActionView, OperationKind};
use crate::engine::policy::Decision;
use crate::engine::time::Duration;

verus! {

pub const CONNECTIONS_ACTIVE: &'static str = "ai_protect_connections_active";

pub const CONNECTIONS_TOTAL: &'static str = "ai_protect_connections_total";

pub const POLICY_DECISIONS_TOTAL: &'static str = "ai_protect_policy_decisions_total";

pub const UPSTREAM_CONNECT_SECONDS: &'static str = "ai_protect_upstream_connect_duration_seconds";

pub const TLS_HANDSHAKE_FAILURES_TOTAL: &'static str = "ai_protect_tls_handshake_failures_total";

/// One name and value that tell series of a metric apart.
#[derive(Debug, Clone, Copy)]
pub struct Label {
    pub name: &'static str,
    pub value: &'static str,
}

/// A change to one metric.
#[derive(Debug, Clone)]
pub enum MetricUpdate {
    /// A counter goes up by one.
    Count { name: &'static str, labels: Vec<Label> },
    /// A gauge goes up by one.
    Raise { name: &'static str },
    /// A gauge goes down by one.
    Lower { name: &'static str },
    /// A histogram takes a measurement.
    Measure { name: &'static str, elapsed: Duration },
}

/// A [`MetricUpdate`] as a mathematical value.
pub enum MetricUpdateView {
    Count { name: Seq<char>, labels: Seq<(Seq<char>, Seq<char>)> },
    Raise { name: Seq<char> },
    Lower { name: Seq<char> },
    Measure { name: Seq<char>, elapsed: Duration },
}

impl View for MetricUpdate {
    type V = MetricUpdateView;

    open spec fn view(&self) -> MetricUpdateView {
        match self {
            MetricUpdate::Count { name, labels } => MetricUpdateView::Count {
                name: name@,
                labels: Seq::new(labels@.len(), |i: int| (labels@[i].name@, labels@[i].value@)),
            },
            MetricUpdate::Raise { name } => MetricUpdateView::Raise { name: name@ },
            MetricUpdate::Lower { name } => MetricUpdateView::Lower { name: name@ },
            MetricUpdate::Measure { name, elapsed } => MetricUpdateView::Measure {
                name: name@,
                elapsed: *elapsed,
            },
        }
    }
}

/// What an update does to the value of the gauge or counter `name`.
pub open spec fn applied(value: int, name: Seq<char>, update: MetricUpdateView) -> int {
    match update {
        MetricUpdateView::Count { name: n, .. } => if n == name {
            value + 1
        } else {
            value
        },
        MetricUpdateView::Raise { name: n } => if n == name {
            value + 1
        } else {
            value
        },
        MetricUpdateView::Lower { name: n } => if n == name {
            value - 1
        } else {
            value
        },
        MetricUpdateView::Measure { .. } => value,
    }
}

/// The updates for the opening of a connection: it counts, and it is active.
pub open spec fn opening_updates() -> Seq<MetricUpdateView> {
    seq![
        MetricUpdateView::Count { name: CONNECTIONS_TOTAL@, labels: Seq::empty() },
        MetricUpdateView::Raise { name: CONNECTIONS_ACTIVE@ },
    ]
}

/// The update for the end of a connection: it is no longer active.
pub open spec fn closing_update() -> MetricUpdateView {
    MetricUpdateView::Lower { name: CONNECTIONS_ACTIVE@ }
}

/// An accepted connection, from its opening to its end.
#[derive(Debug)]
pub struct ConnectionGuard {
    opened: bool,
}

impl ConnectionGuard {
    /// Begins to track an accepted connection.
    pub fn open() -> (guard: ConnectionGuard)
        ensures
            guard.is_open(),
    {
        ConnectionGuard { opened: true }
    }

    pub closed spec fn is_open(&self) -> bool {
        self.opened
    }

    /// What opening the connection does to the metrics: it counts, and it is
    /// active.
    pub fn opening(&self) -> (updates: (MetricUpdate, MetricUpdate))
        ensures
            seq![updates.0@, updates.1@] == opening_updates(),
    {
        let labels: Vec<Label> = Vec::new();
        let count = MetricUpdate::Count { name: CONNECTIONS_TOTAL, labels };
        assert(count@->labels =~= Seq::<(Seq<char>, Seq<char>)>::empty());
        let raise = MetricUpdate::Raise { name: CONNECTIONS_ACTIVE };
        assert(seq![count@, raise@] =~= opening_updates());
        (count, raise)
    }

    /// What the end of the connection does to the metrics, however it ends:
    /// it is no longer active.
    pub fn close(self) -> (update: MetricUpdate)
        ensures
            update@ == closing_update(),
    {
        MetricUpdate::Lower { name: CONNECTIONS_ACTIVE }
    }
}

/// The label value of an operation.
pub open spec fn operation_text(operation: OperationKind) -> Seq<char> {
    match operation {
        OperationKind::AccountLock => "account_lock"@,
        OperationKind::AccountUnlock => "account_unlock"@,
        OperationKind::Delete => "delete"@,
        OperationKind::Create => "create"@,
        OperationKind::PasswordReset => "password_reset"@,
        OperationKind::Rename => "rename"@,
    }
}

/// The label value of an operation.
pub fn operation_label(operation: &OperationKind) -> (label: &'static str)
    ensures
        label@ == operation_text(*operation),
{
    match operation {
        OperationKind::AccountLock => "account_lock",
        OperationKind::AccountUnlock => "account_unlock",
        OperationKind::Delete => "delete",
        OperationKind::Create => "create",
        OperationKind::PasswordReset => "password_reset",
        OperationKind::Rename => "rename",
    }
}

/// The labels of a decision.
pub open spec fn decision_labels(action: ActionView, decision: Option<Seq<char>>) -> Seq<
    (Seq<char>, Seq<char>),
> {
    seq![
        ("decision"@, if decision is Some { "block"@ } else { "allow"@ }),
        ("backend"@, action.backend),
        ("operation"@, operation_text(action.operation)),
    ]
}

/// Counts one decision, by outcome, backend and operation.
pub fn record_decision(action: &Action, decision: &Decision) -> (update: MetricUpdate)
    ensures
        update@ == (MetricUpdateView::Count {
            name: POLICY_DECISIONS_TOTAL@,
            labels: decision_labels(action@, decision@),
        }),
{
    let outcome = match decision {
        Decision::Allow => "allow",
        Decision::Block { .. } => "block",
    };
    let mut labels: Vec<Label> = Vec::new();
    labels.push(Label { name: "decision", value: outcome });
    labels.push(Label { name: "backend", value: action.backend });
    labels.push(Label { name: "operation", value: operation_label(&action.operation) });
    let update = MetricUpdate::Count { name: POLICY_DECISIONS_TOTAL, labels };
    assert(update@->labels =~= decision_labels(action@, decision@));
    update
}

/// Measures how long it took to connect to the upstream.
pub fn record_upstream_connect(elapsed: Duration) -> (update: MetricUpdate)
    ensures
        update@ == (MetricUpdateView::Measure { name: UPSTREAM_CONNECT_SECONDS@, elapsed }),
{
    MetricUpdate::Measure { name: UPSTREAM_CONNECT_SECONDS, elapsed }
}

/// Counts a failed TLS handshake, by the hop it failed on.
pub fn record_tls_handshake_failure(hop: &'static str) -> (update: MetricUpdate)
    ensures
        update@ == (MetricUpdateView::Count {
            name: TLS_HANDSHAKE_FAILURES_TOTAL@,
            labels: seq![("hop"@, hop@)],
        }),
{
    let mut labels: Vec<Label> = Vec::new();
    labels.push(Label { name: "hop", value: hop });
    let update = MetricUpdate::Count { name: TLS_HANDSHAKE_FAILURES_TOTAL, labels };
    assert(update@->labels =~= seq![("hop"@, hop@)]);
    update
}

/// What happens to the connections of a process, each known by a number of
/// its own.
pub enum ConnectionEvent {
    Opened { id: nat },
    Ended { id: nat },
    /// Something else is recorded.
    Recorded { update: MetricUpdateView },
}

/// The connections that are open after some events.
pub open spec fn open_after(events: Seq<ConnectionEvent>) -> Set<nat>
    decreases events.len(),
{
    if events.len() == 0 {
        Set::empty()
    } else {
        let open = open_after(events.drop_last());
        match events.last() {
            ConnectionEvent::Opened { id } => open.insert(id),
            ConnectionEvent::Ended { id } => open.remove(id),
            ConnectionEvent::Recorded { .. } => open,
        }
    }
}

/// How many connections were opened over some events.
pub open spec fn opened_in(events: Seq<ConnectionEvent>) -> nat
    decreases events.len(),
{
    if events.len() == 0 {
        0
    } else {
        opened_in(events.drop_last()) + if events.last() is Opened {
            1nat
        } else {
            0nat
        }
    }
}

/// Whether events can happen: a connection that is opened was not open, one
/// that ends was, and nothing else that is recorded is about connections.
pub open spec fn can_happen(events: Seq<ConnectionEvent>) -> bool
    decreases events.len(),
{
    events.len() > 0 ==> {
        &&& can_happen(events.drop_last())
        &&& match events.last() {
            ConnectionEvent::Opened { id } => !open_after(events.drop_last()).contains(id),
            ConnectionEvent::Ended { id } => open_after(events.drop_last()).contains(id),
            ConnectionEvent::Recorded { update } => forall|value: int|
                #![trigger applied(value, CONNECTIONS_ACTIVE@, update)]
                #![trigger applied(value, CONNECTIONS_TOTAL@, update)]
                applied(value, CONNECTIONS_ACTIVE@, update) == value && applied(
                    value,
                    CONNECTIONS_TOTAL@,
                    update,
                ) == value,
        }
    }
}

/// What the gauge or counter `name` shows after some events, beginning with
/// zero.
pub open spec fn shown(name: Seq<char>, events: Seq<ConnectionEvent>) -> int
    decreases events.len(),
{
    if events.len() == 0 {
        0
    } else {
        let value = shown(name, events.drop_last());
        match events.last() {
            ConnectionEvent::Opened { .. } => applied(
                applied(value, name, opening_updates()[0]),
                name,
                opening_updates()[1],
            ),
            ConnectionEvent::Ended { .. } => applied(value, name, closing_update()),
            ConnectionEvent::Recorded { update } => applied(value, name, update),
        }
    }
}

/// The metrics of connections cannot drift: in whatever order connections
/// open and end, and whatever else is recorded in between, the gauge shows how
/// many are open and the counter how many were ever opened.
pub proof fn active_gauge_does_not_drift(events: Seq<ConnectionEvent>)
    requires
        can_happen(events),
    ensures
        open_after(events).finite(),
        shown(CONNECTIONS_ACTIVE@, events) == open_after(events).len(),
        shown(CONNECTIONS_TOTAL@, events) == opened_in(events),
    decreases events.len(),
{
    reveal_strlit("ai_protect_connections_active");
    reveal_strlit("ai_protect_connections_total");
    assert(CONNECTIONS_ACTIVE@.len() != CONNECTIONS_TOTAL@.len());
    if events.len() > 0 {
        active_gauge_does_not_drift(events.drop_last());
    }
}

/// What is recorded of decisions, of the way to the upstream and of failed
/// handshakes is not about connections.
pub proof fn other_records_leave_connections_alone(
    action: ActionView,
    decision: Option<Seq<char>>,
    elapsed: Duration,
    hop: Seq<char>,
    value: int,
    name: Seq<char>,
)
    requires
        name == CONNECTIONS_ACTIVE@ || name == CONNECTIONS_TOTAL@,
    ensures
        applied(
            value,
            name,
            MetricUpdateView::Count {
                name: POLICY_DECISIONS_TOTAL@,
                labels: decision_labels(action, decision),
            },
        ) == value,
        applied(
            value,
            name,
            MetricUpdateView::Measure { name: UPSTREAM_CONNECT_SECONDS@, elapsed },
        ) == value,
        applied(
            value,
            name,
            MetricUpdateView::Count {
                name: TLS_HANDSHAKE_FAILURES_TOTAL@,
                labels: seq![("hop"@, hop)],
            },
        ) == value,
{
    reveal_strlit("ai_protect_connections_active");
    reveal_strlit("ai_protect_connections_total");
    reveal_strlit("ai_protect_policy_decisions_total");
    reveal_strlit("ai_protect_tls_handshake_failures_total");
    assert(CONNECTIONS_ACTIVE@.len() == 29);
    assert(CONNECTIONS_TOTAL@.len() == 28);
    assert(POLICY_DECISIONS_TOTAL@.len() == 33);
    assert(TLS_HANDSHAKE_FAILURES_TOTAL@.len() == 39);
}

/// No two operations share a label.
pub proof fn operation_labels_are_distinct(a: OperationKind, b: OperationKind)
    ensures
        operation_text(a) == operation_text(b) ==> a == b,
{
    reveal_strlit("account_lock");
    reveal_strlit("account_unlock");
    reveal_strlit("delete");
    reveal_strlit("create");
    reveal_strlit("password_reset");
    reveal_strlit("rename");
    assert(operation_text(OperationKind::AccountLock)[0] == 'a');
    assert(operation_text(OperationKind::AccountLock).len() == 12);
    assert(operation_text(OperationKind::AccountUnlock).len() == 14);
    assert(operation_text(OperationKind::AccountUnlock)[0] == 'a');
    assert(operation_text(OperationKind::Delete)[0] == 'd');
    assert(operation_text(OperationKind::Create)[0] == 'c');
    assert(operation_text(OperationKind::PasswordReset)[0] == 'p');
    assert(operation_text(OperationKind::Rename)[0] == 'r');
}

/// The metrics go by these names, which dashboards and alerts refer to.
pub proof fn metrics_have_their_names()
    ensures
        CONNECTIONS_ACTIVE@ == "ai_protect_connections_active"@,
        CONNECTIONS_TOTAL@ == "ai_protect_connections_total"@,
        POLICY_DECISIONS_TOTAL@ == "ai_protect_policy_decisions_total"@,
        UPSTREAM_CONNECT_SECONDS@ == "ai_protect_upstream_connect_duration_seconds"@,
        TLS_HANDSHAKE_FAILURES_TOTAL@ == "ai_protect_tls_handshake_failures_total"@,
{
}

/// A decision is counted under three labels: its outcome, which is the same
/// for every reason to block, the backend of the action as it is, and the
/// name of its operation.
pub proof fn decisions_are_told_apart_by_labels(
    action: ActionView,
    reason: Seq<char>,
    other: Seq<char>,
)
    ensures
        decision_labels(action, None) == seq![
            ("decision"@, "allow"@),
            ("backend"@, action.backend),
            ("operation"@, operation_text(action.operation)),
        ],
        decision_labels(action, Some(reason)) == decision_labels(action, None).update(
            0,
            ("decision"@, "block"@),
        ),
        decision_labels(action, Some(reason)) == decision_labels(action, Some(other)),
{
    assert(decision_labels(action, Some(reason)) =~= decision_labels(action, None).update(
        0,
        ("decision"@, "block"@),
    ));
}

/// The operations go by these names in labels.
pub proof fn operations_have_their_labels()
    ensures
        operation_text(OperationKind::AccountLock) == "account_lock"@,
        operation_text(OperationKind::AccountUnlock) == "account_unlock"@,
        operation_text(OperationKind::Delete) == "delete"@,
        operation_text(OperationKind::Create) == "create"@,
        operation_text(OperationKind::PasswordReset) == "password_reset"@,
        operation_text(OperationKind::Rename) == "rename"@,
{
}

/// Updates of other metrics leave a metric alone, a measurement changes no
/// counter or gauge, and raising and lowering cancel out.
pub proof fn updates_change_one_metric_by_one(
    value: int,
    name: Seq<char>,
    other: Seq<char>,
    labels: Seq<(Seq<char>, Seq<char>)>,
    elapsed: Duration,
)
    requires
        other != name,
    ensures
        applied(value, name, MetricUpdateView::Count { name, labels }) == value + 1,
        applied(value, name, MetricUpdateView::Raise { name }) == value + 1,
        applied(value, name, MetricUpdateView::Lower { name }) == value - 1,
        applied(value, name, MetricUpdateView::Measure { name, elapsed }) == value,
        applied(value, name, MetricUpdateView::Count { name: other, labels }) == value,
        applied(value, name, MetricUpdateView::Raise { name: other }) == value,
        applied(value, name, MetricUpdateView::Lower { name: other }) == value,
{
}

/// Opening a connection counts it, without labels, and raises the gauge; its
/// end lowers the same gauge and counts nothing.
pub proof fn connections_are_counted_once()
    ensures
        opening_updates().len() == 2,
        opening_updates()[0] == (MetricUpdateView::Count {
            name: "ai_protect_connections_total"@,
            labels: Seq::empty(),
        }),
        opening_updates()[1] == (MetricUpdateView::Raise {
            name: "ai_protect_connections_active"@,
        }),
        closing_update() == (MetricUpdateView::Lower { name: "ai_protect_connections_active"@ }),
{
}

/// The value of an update is what it does to which metric, with every label
/// in its place.
pub proof fn updates_are_known_by_their_parts(
    name: &'static str,
    labels: Vec<Label>,
    elapsed: Duration,
    at: int,
)
    requires
        0 <= at < labels@.len(),
    ensures
        ({
            &&& (MetricUpdate::Count { name, labels })@ matches MetricUpdateView::Count {
                name: shown,
                labels: all,
            }
            &&& shown == name@
            &&& all.len() == labels@.len()
            &&& all[at] == (labels@[at].name@, labels@[at].value@)
        }),
        (MetricUpdate::Raise { name })@ == (MetricUpdateView::Raise { name: name@ }),
        (MetricUpdate::Lower { name })@ == (MetricUpdateView::Lower { name: name@ }),
        (MetricUpdate::Measure { name, elapsed })@ == (MetricUpdateView::Measure {
            name: name@,
            elapsed,
        }),
{
}

}
