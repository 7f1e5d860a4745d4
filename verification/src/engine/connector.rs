//! The seam between a wire protocol and the policy engine.

use vstd::prelude::*;

use crate::engine::action::{Action, ActionView};

verus! {

/// Why a connector cannot handle a frame.
#[derive(Debug, Clone, Copy, PartialEq, Eq, Structural)]
pub enum ConnectorError {
    /// The frame is not a message of the protocol.
    Decode,
    /// The answer cannot be written in the protocol.
    Encode,
}

/// Whether a result about an action has the given mathematical value.
pub open spec fn is_action(
    result: Result<Option<Action>, ConnectorError>,
    value: Result<Option<ActionView>, ConnectorError>,
) -> bool {
    match (result, value) {
        (Ok(None), Ok(None)) => true,
        (Ok(Some(action)), Ok(Some(view))) => action@ == view,
        (Err(error), Err(expected)) => error == expected,
        _ => false,
    }
}

/// Whether a result about octets has the given mathematical value.
pub open spec fn is_octets(
    result: Result<Vec<u8>, ConnectorError>,
    value: Result<Seq<u8>, ConnectorError>,
) -> bool {
    match (result, value) {
        (Ok(octets), Ok(view)) => octets@ == view,
        (Err(error), Err(expected)) => error == expected,
        _ => false,
    }
}

/// Whether a result about optional octets has the given mathematical value.
pub open spec fn is_answer(
    result: Result<Option<Vec<u8>>, ConnectorError>,
    value: Result<Option<Seq<u8>>, ConnectorError>,
) -> bool {
    match (result, value) {
        (Ok(None), Ok(None)) => true,
        (Ok(Some(octets)), Ok(Some(view))) => octets@ == view,
        (Err(error), Err(expected)) => error == expected,
        _ => false,
    }
}

/// Whether a result about a claimed identity has the given mathematical value.
pub open spec fn is_claim(
    result: Result<Option<(u32, String)>, ConnectorError>,
    value: Result<Option<(u32, Seq<char>)>, ConnectorError>,
) -> bool {
    match (result, value) {
        (Ok(None), Ok(None)) => true,
        (Ok(Some((id, dn))), Ok(Some((expected_id, view)))) => id == expected_id && dn@ == view,
        (Err(error), Err(expected)) => error == expected,
        _ => false,
    }
}

/// What a wire protocol has to offer so that its requests can be policed.
/// The answers are functions of the frame alone. A protocol without a
/// mechanism for upgrading or for claiming an identity answers that no frame
/// is such a request.
pub trait Connector {
    /// The action that a frame asks for, if policies care about it.
    spec fn action_in(&self, frame: Seq<u8>) -> Result<Option<ActionView>, ConnectorError>;

    /// The answer that refuses a frame.
    spec fn rejection_of(&self, frame: Seq<u8>, reason: Seq<char>) -> Result<
        Seq<u8>,
        ConnectorError,
    >;

    /// The answer that confirms a request to upgrade the connection.
    spec fn upgrade_of(&self, frame: Seq<u8>) -> Result<Option<Seq<u8>>, ConnectorError>;

    /// The message ID and the identity of a request that claims one.
    spec fn claim_in(&self, frame: Seq<u8>) -> Result<Option<(u32, Seq<char>)>, ConnectorError>;

    /// The message ID of an answer to such a request, and whether the claim
    /// succeeded.
    spec fn outcome_in(&self, frame: Seq<u8>) -> Result<Option<(u32, bool)>, ConnectorError>;

    /// Recognizes the action that a frame asks for. None means that the
    /// frame is of no concern and is forwarded untouched.
    fn decode(&self, frame: &[u8]) -> (action: Result<Option<Action>, ConnectorError>)
        ensures
            is_action(action, self.action_in(frame@)),
    ;

    /// Builds the answer to a blocked frame.
    fn build_rejection(&self, frame: &[u8], reason: &str) -> (rejection: Result<
        Vec<u8>,
        ConnectorError,
    >)
        ensures
            is_octets(rejection, self.rejection_of(frame@, reason@)),
    ;

    /// Recognizes a request to upgrade the connection that carries it, and
    /// builds the answer to be sent before the upgrade. None means that the
    /// frame is an ordinary request.
    fn upgrade_request(&self, frame: &[u8]) -> (response: Result<Option<Vec<u8>>, ConnectorError>)
        ensures
            is_answer(response, self.upgrade_of(frame@)),
    ;

    /// Recognizes a request that claims an identity. The claim is not to be
    /// trusted before [`Connector::bind_response`] confirms it.
    fn bind_request(&self, frame: &[u8]) -> (claim: Result<Option<(u32, String)>, ConnectorError>)
        ensures
            is_claim(claim, self.claim_in(frame@)),
    ;

    /// Recognizes the answer to a request that claimed an identity.
    fn bind_response(&self, frame: &[u8]) -> (outcome: Result<Option<(u32, bool)>, ConnectorError>)
        ensures
            outcome == self.outcome_in(frame@),
    ;
}

/// A result has the value it is said to have in every part: an action by its
/// backend, its operation, its target and its size, octets one by one, a claim
/// by its message ID and its name, and an error by its kind.
pub proof fn results_have_their_values(
    action: Result<Option<Action>, ConnectorError>,
    action_value: Result<Option<ActionView>, ConnectorError>,
    octets: Result<Vec<u8>, ConnectorError>,
    octets_value: Result<Seq<u8>, ConnectorError>,
    answer: Result<Option<Vec<u8>>, ConnectorError>,
    answer_value: Result<Option<Seq<u8>>, ConnectorError>,
    claim: Result<Option<(u32, String)>, ConnectorError>,
    claim_value: Result<Option<(u32, Seq<char>)>, ConnectorError>,
)
    ensures
        is_action(action, action_value) <==> match action {
            Ok(Some(a)) => action_value == Ok::<Option<ActionView>, ConnectorError>(
                Some(
                    ActionView {
                        backend: a.backend@,
                        operation: a.operation,
                        target: a.target@,
                        blast_radius: a.blast_radius as nat,
                    },
                ),
            ),
            Ok(None) => action_value == Ok::<Option<ActionView>, ConnectorError>(None),
            Err(e) => action_value == Err::<Option<ActionView>, ConnectorError>(e),
        },
        is_octets(octets, octets_value) <==> match octets {
            Ok(o) => octets_value == Ok::<Seq<u8>, ConnectorError>(o@),
            Err(e) => octets_value == Err::<Seq<u8>, ConnectorError>(e),
        },
        is_answer(answer, answer_value) <==> match answer {
            Ok(Some(o)) => answer_value == Ok::<Option<Seq<u8>>, ConnectorError>(Some(o@)),
            Ok(None) => answer_value == Ok::<Option<Seq<u8>>, ConnectorError>(None),
            Err(e) => answer_value == Err::<Option<Seq<u8>>, ConnectorError>(e),
        },
        is_claim(claim, claim_value) <==> match claim {
            Ok(Some((id, dn))) => claim_value == Ok::<Option<(u32, Seq<char>)>, ConnectorError>(
                Some((id, dn@)),
            ),
            Ok(None) => claim_value == Ok::<Option<(u32, Seq<char>)>, ConnectorError>(None),
            Err(e) => claim_value == Err::<Option<(u32, Seq<char>)>, ConnectorError>(e),
        },
{
}

}
