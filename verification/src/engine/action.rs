//! What a client is attempting, independent of the wire protocol.

use vstd::prelude::*;

verus! {

/// The kinds of operation a policy can decide about.
#[derive(Debug, Clone, Copy, PartialEq, Eq, Structural)]
pub enum OperationKind {
    /// An account being locked or disabled.
    AccountLock,
    /// A lock attribute being cleared back to its schema default: the mirror
    /// image of `AccountLock`, with a kind of its own because many unlocks
    /// and many locks may warrant different limits.
    AccountUnlock,
    /// A directory entry being removed.
    Delete,
    /// A directory entry being created.
    Create,
    /// A password being reset through the Password Modify extended operation.
    PasswordReset,
    /// An entry being renamed or moved.
    Rename,
}

/// An operation a client is attempting, normalized by a connector so that the
/// policy engine never has to understand a wire protocol.
#[derive(Debug, Clone)]
pub struct Action {
    /// The backend the request is for.
    pub backend: &'static str,
    pub operation: OperationKind,
    /// The entry the request names.
    pub target: String,
    /// How many entries the request affects.
    pub blast_radius: usize,
}

/// An [`Action`] as a mathematical value.
pub struct ActionView {
    pub backend: Seq<char>,
    pub operation: OperationKind,
    pub target: Seq<char>,
    pub blast_radius: nat,
}

impl View for Action {
    type V = ActionView;

    open spec fn view(&self) -> ActionView {
        ActionView {
            backend: self.backend@,
            operation: self.operation,
            target: self.target@,
            blast_radius: self.blast_radius as nat,
        }
    }
}

/// The value of an action tells everything about it: two actions have one
/// value only if they agree in backend, operation, target and size.
pub proof fn actions_are_known_by_their_parts(a: Action, b: Action)
    ensures
        a@.backend == a.backend@,
        a@.operation == a.operation,
        a@.target == a.target@,
        a@.blast_radius == a.blast_radius,
        a@ == b@ <==> a.backend@ == b.backend@ && a.operation == b.operation && a.target@
            == b.target@ && a.blast_radius == b.blast_radius,
{
}

}
