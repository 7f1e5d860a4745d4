//! Directory messages as plain values, and the codec behind them.

use rasn::ber::{decode, encode};
use rasn::error::{DecodeError, EncodeError};
use rasn_ldap::AuthenticationChoice::Simple;
use rasn_ldap::BindRequest as BindFields;
use rasn_ldap::ProtocolOp::{
    AddRequest, AddResponse as AddAnswer, BindRequest, BindResponse, DelRequest,
    DelResponse as DelAnswer, ExtendedReq, ExtendedResp, ModDnRequest, ModDnResponse,
    ModifyRequest, ModifyResponse as ModifyAnswer,
};
use rasn_ldap::{
    AddResponse, DelResponse, ExtendedRequest, ExtendedResponse, LdapMessage, LdapResult,
    ModifyDnResponse, ModifyResponse, ResultCode,
};
use vstd::prelude::*;

use self::Answer::{ToAdd, ToBind, ToDelete, ToExtended, ToModify, ToRename};
use self::Operation::{Add, Bind, Delete, Extended, Modify, Other, Rename};
use crate::connector::ldap;
use crate::engine::text;

verus! {

/// The failure of the codec to read a message.
#[verifier::external_type_specification]
#[verifier::external_body]
pub struct ExDecodeError(rasn::error::DecodeError);

/// The failure of the codec to write a message.
#[verifier::external_type_specification]
#[verifier::external_body]
pub struct ExEncodeError(rasn::error::EncodeError);

/// A message: its ID and what it asks.
#[derive(Debug, Clone)]
pub struct Message(pub u32, pub Operation);

/// The part of a request that decisions depend on.
#[derive(Debug, Clone)]
pub enum Operation {
    /// A bind by name and password.
    Bind(String, Vec<u8>),
    /// A modification of the named entry. A change is a number for what it
    /// does (0 adds, 1 deletes, 2 replaces) and the encoding of the attribute
    /// it does that to; none stands for an attribute that has no encoding.
    Modify(String, Vec<(u8, Option<Vec<u8>>)>),
    /// The creation of the named entry.
    Add(String),
    /// The removal of the named entry.
    Delete(String),
    /// The renaming or moving of the named entry.
    Rename(String),
    /// An extended request: its object identifier and its value.
    Extended(Vec<u8>, Option<Vec<u8>>),
    /// Everything else, answers and binds by other means among it.
    Other,
}

/// What octets are read as: a message by its ID, the request in it and the
/// answer in it.
pub struct MessageView {
    pub message_id: u32,
    /// Other, unless it is a request that decisions depend on.
    pub operation: OperationView,
    /// None, unless it is an answer.
    pub answer: Option<AnswerView>,
}

/// An [`Operation`] as a mathematical value.
pub enum OperationView {
    Bind { dn: Seq<char>, password: Seq<u8> },
    Modify { object: Seq<char>, changes: Seq<(u8, Option<Seq<u8>>)> },
    Add { entry: Seq<char> },
    Delete { entry: Seq<char> },
    Rename { entry: Seq<char> },
    Extended { oid: Seq<u8>, value: Option<Seq<u8>> },
    Other,
}

/// A change as a mathematical value.
pub open spec fn change_view(change: (u8, Option<Vec<u8>>)) -> (u8, Option<Seq<u8>>) {
    (change.0, text::octets_view(change.1))
}

impl View for Operation {
    type V = OperationView;

    open spec fn view(&self) -> OperationView {
        match self {
            Operation::Bind(name, password) => OperationView::Bind {
                dn: name@,
                password: password@,
            },
            Operation::Modify(object, changes) => OperationView::Modify {
                object: object@,
                changes: Seq::new(changes@.len(), |i: int| change_view(changes@[i])),
            },
            Operation::Add(entry) => OperationView::Add { entry: entry@ },
            Operation::Delete(entry) => OperationView::Delete { entry: entry@ },
            Operation::Rename(entry) => OperationView::Rename { entry: entry@ },
            Operation::Extended(name, value) => OperationView::Extended {
                oid: name@,
                value: text::octets_view(*value),
            },
            Operation::Other => OperationView::Other,
        }
    }
}

/// What `rasn::ber::decode` makes of some octets, read as a
/// `rasn_ldap::LdapMessage`; none when it fails.
pub uninterp spec fn decoded_message(frame: Seq<u8>) -> Option<MessageView>;

/// `rasn::ber::decode` for a `rasn_ldap::LdapMessage`, reduced to the fields
/// of a request that decisions depend on. The result is a function of the
/// octets alone. The attributes of a modification are handed out as
/// `rasn::ber::encode` writes them: each is a sequence that begins with the
/// attribute's name as an octet string, which is UTF-8 because the codec reads
/// it into a `String`. That each has such an encoding is stated for messages
/// that fit in a frame, whose lengths take four octets at most.
#[verifier::external_body]
pub(crate) fn decode_message(frame: &[u8]) -> (message: Result<Message, DecodeError>)
    ensures
        match message {
            Ok(m) => {
                &&& decoded_message(frame@) matches Some(decoded)
                &&& decoded.message_id == m.0
                &&& decoded.operation == m.1@
                &&& ldap::fits_in_frame(frame@) ==> (
                m.1@ matches OperationView::Modify { changes, .. } ==> ldap::all_readable(changes))
            },
            Err(_) => decoded_message(frame@) is None,
        },
{
    decode(frame).map(|m: LdapMessage| Message(m.message_id, match m.protocol_op {
        BindRequest(BindFields { name, authentication: Simple(password), .. }) => Bind(name.0, password.to_vec()),
        ModifyRequest(r) => Modify(r.object.0, r.changes.iter().map(|c| (c.operation as u8, encode(&c.modification).ok())).collect()),
        AddRequest(r) => Add(r.entry.0),
        DelRequest(r) => Delete((r.0).0),
        ModDnRequest(r) => Rename(r.entry.0),
        ExtendedReq(r) => Extended(r.request_name.to_vec(), r.request_value.as_deref().map(Into::into)),
        _ => Other
    }))
}

/// Which kind of request an answer belongs to.
#[derive(Debug, Clone, Copy, PartialEq, Eq, Structural)]
pub enum AnswerKind {
    Bind,
    Modify,
    Delete,
    Add,
    Rename,
    Extended,
}

/// An answer, by the kind of request that it belongs to: its result code, its
/// matched DN and its diagnostic message.
#[derive(Debug)]
pub enum Answer {
    ToBind((u32, String, String)),
    ToModify((u32, String, String)),
    ToDelete((u32, String, String)),
    ToAdd((u32, String, String)),
    ToRename((u32, String, String)),
    ToExtended((u32, String, String)),
}

/// An [`Answer`] as a mathematical value.
pub struct AnswerView {
    pub kind: AnswerKind,
    pub result_code: u32,
    pub matched_dn: Seq<char>,
    pub diagnostic: Seq<char>,
}

impl View for Answer {
    type V = AnswerView;

    open spec fn view(&self) -> AnswerView {
        let (kind, parts) = match self {
            Answer::ToBind(parts) => (AnswerKind::Bind, *parts),
            Answer::ToModify(parts) => (AnswerKind::Modify, *parts),
            Answer::ToDelete(parts) => (AnswerKind::Delete, *parts),
            Answer::ToAdd(parts) => (AnswerKind::Add, *parts),
            Answer::ToRename(parts) => (AnswerKind::Rename, *parts),
            Answer::ToExtended(parts) => (AnswerKind::Extended, *parts),
        };
        AnswerView { kind, result_code: parts.0, matched_dn: parts.1@, diagnostic: parts.2@ }
    }
}

/// An answer, if there is one, as a mathematical value.
pub open spec fn answer_view(answer: Option<Answer>) -> Option<AnswerView> {
    match answer {
        Some(answer) => Some(answer@),
        None => None,
    }
}

/// `rasn::ber::decode` for a `rasn_ldap::LdapMessage`, reduced to the result
/// that an answer carries. The result is a function of the octets alone, and
/// no message is both an answer and a request.
#[verifier::external_body]
pub(crate) fn decode_answer(frame: &[u8]) -> (answer: Result<(u32, Option<Answer>), DecodeError>)
    ensures
        match answer {
            Ok((message_id, answer)) => {
                &&& decoded_message(frame@) matches Some(decoded)
                &&& decoded.message_id == message_id
                &&& decoded.answer == answer_view(answer)
                &&& answer is Some ==> decoded.operation is Other
            },
            Err(_) => decoded_message(frame@) is None,
        },
{
    let parts = |r: LdapResult| (r.result_code as u32, r.matched_dn.0, r.diagnostic_message.0);
    decode(frame).map(|m: LdapMessage| (m.message_id, match m.protocol_op {
        BindResponse(r) => Some(ToBind((r.result_code as u32, r.matched_dn.0, r.diagnostic_message.0))),
        ModifyAnswer(r) => Some(ToModify(parts(r.0))),
        DelAnswer(r) => Some(ToDelete(parts(r.0))),
        AddAnswer(r) => Some(ToAdd(parts(r.0))),
        ModDnResponse(r) => Some(ToRename(parts(r.0))),
        ExtendedResp(r) => Some(ToExtended((r.result_code as u32, r.matched_dn.0, r.diagnostic_message.0))),
        _ => None
    }))
}

/// The result codes that answers are given with.
#[derive(Debug, Clone, Copy, PartialEq, Eq, Structural)]
pub enum ReplyCode {
    Success,
    UnwillingToPerform,
}

impl ReplyCode {
    /// The number of a result code on the wire.
    pub open spec fn number(self) -> u32 {
        match self {
            ReplyCode::Success => 0,
            ReplyCode::UnwillingToPerform => 53,
        }
    }
}

/// Which kind of request an answer that is written belongs to.
#[derive(Debug, Clone, Copy, PartialEq, Eq, Structural)]
pub enum ReplyKind {
    Modify,
    Delete,
    Add,
    Rename,
    Extended,
}

impl ReplyKind {
    /// The same kind among those of the answers that are read.
    pub open spec fn answer_kind(self) -> AnswerKind {
        match self {
            ReplyKind::Modify => AnswerKind::Modify,
            ReplyKind::Delete => AnswerKind::Delete,
            ReplyKind::Add => AnswerKind::Add,
            ReplyKind::Rename => AnswerKind::Rename,
            ReplyKind::Extended => AnswerKind::Extended,
        }
    }
}

/// What is written to the wire.
#[derive(Debug, Clone)]
pub enum Outgoing {
    /// An answer: its kind, its result code, its matched DN and its
    /// diagnostic message.
    Reply(ReplyKind, ReplyCode, String, String),
    /// An extended request without a value.
    ExtendedRequest(Vec<u8>),
}

/// An [`Outgoing`] as a mathematical value.
pub enum OutgoingView {
    Reply { kind: ReplyKind, code: ReplyCode, matched_dn: Seq<char>, diagnostic: Seq<char> },
    ExtendedRequest { oid: Seq<u8> },
}

impl View for Outgoing {
    type V = OutgoingView;

    open spec fn view(&self) -> OutgoingView {
        match self {
            Outgoing::Reply(kind, code, matched_dn, diagnostic) => OutgoingView::Reply {
                kind: *kind,
                code: *code,
                matched_dn: matched_dn@,
                diagnostic: diagnostic@,
            },
            Outgoing::ExtendedRequest(oid) => OutgoingView::ExtendedRequest { oid: oid@ },
        }
    }
}

/// Whether octets read back as an outgoing message: an answer as one of its
/// kind with its result code, its matched DN and its diagnostic message, an
/// extended request as one with its object identifier, each with the message
/// ID.
pub open spec fn reads_back(octets: Seq<u8>, message_id: u32, outgoing: OutgoingView) -> bool {
    decoded_message(octets) == Some(
        match outgoing {
            OutgoingView::Reply { kind, code, matched_dn, diagnostic } => MessageView {
                message_id,
                operation: OperationView::Other,
                answer: Some(
                    AnswerView {
                        kind: kind.answer_kind(),
                        result_code: code.number(),
                        matched_dn,
                        diagnostic,
                    },
                ),
            },
            OutgoingView::ExtendedRequest { oid } => MessageView {
                message_id,
                operation: OperationView::Extended { oid, value: None },
                answer: None,
            },
        },
    )
}

/// What `rasn::ber::encode` makes of an outgoing message, written as a
/// `rasn_ldap::LdapMessage` without controls.
pub uninterp spec fn encoded_message(message_id: u32, outgoing: OutgoingView) -> Seq<u8>;

/// `rasn::ber::encode` for a `rasn_ldap::LdapMessage` whose optional fields
/// are absent. It always succeeds: the encoder refuses a value outside the
/// bounds of its type only, and none of the types here bounds its values. The
/// octets are a function of the message alone, and reading them gives the
/// message back.
#[verifier::external_body]
pub(crate) fn encode_message(message_id: u32, outgoing: Outgoing) -> (octets: Result<
    Vec<u8>,
    EncodeError,
>)
    ensures
        octets is Ok,
        octets matches Ok(octets) ==> octets@ == encoded_message(message_id, outgoing@)
            && reads_back(octets@, message_id, outgoing@),
{
    encode(&LdapMessage::new(message_id, match outgoing {
        Outgoing::ExtendedRequest(oid) => ExtendedReq(ExtendedRequest { request_name: oid.into(), request_value: None }),
        Outgoing::Reply(kind, code, dn, text) => {
            let code = match code { ReplyCode::Success => ResultCode::Success, ReplyCode::UnwillingToPerform => ResultCode::UnwillingToPerform };
            let result = LdapResult::new(code, dn.into(), text.into());
            match kind {
                ReplyKind::Modify => ModifyAnswer(ModifyResponse(result)),
                ReplyKind::Delete => DelAnswer(DelResponse(result)),
                ReplyKind::Add => AddAnswer(AddResponse(result)),
                ReplyKind::Rename => ModDnResponse(ModifyDnResponse(result)),
                ReplyKind::Extended => ExtendedResp(ExtendedResponse { result_code: result.result_code, matched_dn: result.matched_dn, diagnostic_message: result.diagnostic_message, referral: None, response_name: None, response_value: None }),
            }
        },
    }))
}

/// The value of a request is that of its parts, each change of a modification
/// in its place.
pub proof fn requests_are_known_by_their_parts(
    name: String,
    octets: Vec<u8>,
    changes: Vec<(u8, Option<Vec<u8>>)>,
    value: Option<Vec<u8>>,
    at: int,
)
    requires
        0 <= at < changes@.len(),
    ensures
        Operation::Bind(name, octets)@ == (OperationView::Bind { dn: name@, password: octets@ }),
        ({
            &&& Operation::Modify(name, changes)@ matches OperationView::Modify {
                object,
                changes: all,
            }
            &&& object == name@
            &&& all.len() == changes@.len()
            &&& all[at].0 == changes@[at].0
            &&& changes@[at].1 is None ==> all[at].1 is None
            &&& changes@[at].1 matches Some(attribute) ==> all[at].1 == Some(attribute@)
        }),
        Operation::Add(name)@ == (OperationView::Add { entry: name@ }),
        Operation::Delete(name)@ == (OperationView::Delete { entry: name@ }),
        Operation::Rename(name)@ == (OperationView::Rename { entry: name@ }),
        ({
            &&& Operation::Extended(octets, value)@ matches OperationView::Extended {
                oid,
                value: shown,
            }
            &&& oid == octets@
            &&& value is None ==> shown is None
            &&& value matches Some(held) ==> shown == Some(held@)
        }),
        Operation::Other@ is Other,
{
}

/// The value of an answer is its kind and its three parts.
pub proof fn answers_are_known_by_their_parts(code: u32, matched: String, note: String)
    ensures
        Answer::ToBind((code, matched, note))@.kind == AnswerKind::Bind,
        Answer::ToModify((code, matched, note))@.kind == AnswerKind::Modify,
        Answer::ToDelete((code, matched, note))@.kind == AnswerKind::Delete,
        Answer::ToAdd((code, matched, note))@.kind == AnswerKind::Add,
        Answer::ToRename((code, matched, note))@.kind == AnswerKind::Rename,
        Answer::ToExtended((code, matched, note))@.kind == AnswerKind::Extended,
        forall|answer: Answer|
            (answer == Answer::ToBind((code, matched, note)) || answer == Answer::ToModify(
                (code, matched, note),
            ) || answer == Answer::ToDelete((code, matched, note)) || answer == Answer::ToAdd(
                (code, matched, note),
            ) || answer == Answer::ToRename((code, matched, note)) || answer == Answer::ToExtended(
                (code, matched, note),
            )) ==> (#[trigger] answer@).result_code == code && answer@.matched_dn == matched@
                && answer@.diagnostic == note@,
        answer_view(None) is None,
        answer_view(Some(Answer::ToBind((code, matched, note)))) == Some(
            Answer::ToBind((code, matched, note))@,
        ),
{
}

/// The value of what is written is its kind, its result code and its two
/// texts, or its object identifier; on the wire, success is 0 and being
/// unwilling to perform is 53.
pub proof fn outgoing_messages_are_known_by_their_parts(
    kind: ReplyKind,
    code: ReplyCode,
    matched: String,
    note: String,
    oid: Vec<u8>,
)
    ensures
        Outgoing::Reply(kind, code, matched, note)@ == (OutgoingView::Reply {
            kind,
            code,
            matched_dn: matched@,
            diagnostic: note@,
        }),
        Outgoing::ExtendedRequest(oid)@ == (OutgoingView::ExtendedRequest { oid: oid@ }),
        ReplyCode::Success.number() == 0,
        ReplyCode::UnwillingToPerform.number() == 53,
        ReplyKind::Modify.answer_kind() == AnswerKind::Modify,
        ReplyKind::Delete.answer_kind() == AnswerKind::Delete,
        ReplyKind::Add.answer_kind() == AnswerKind::Add,
        ReplyKind::Rename.answer_kind() == AnswerKind::Rename,
        ReplyKind::Extended.answer_kind() == AnswerKind::Extended,
{
}

/// Octets read back as an answer if and only if they are one of its kind with
/// its result code and its texts under its message ID, and as an extended
/// request if and only if they are one of its identifier without a value.
pub proof fn reading_back_loses_nothing(
    octets: Seq<u8>,
    message_id: u32,
    kind: ReplyKind,
    code: ReplyCode,
    matched_dn: Seq<char>,
    diagnostic: Seq<char>,
    oid: Seq<u8>,
)
    ensures
        reads_back(
            octets,
            message_id,
            OutgoingView::Reply { kind, code, matched_dn, diagnostic },
        ) <==> {
            &&& decoded_message(octets) matches Some(m)
            &&& m.message_id == message_id
            &&& m.operation is Other
            &&& m.answer matches Some(answer)
            &&& answer.kind == kind.answer_kind()
            &&& answer.result_code == code.number()
            &&& answer.matched_dn == matched_dn
            &&& answer.diagnostic == diagnostic
        },
        reads_back(octets, message_id, OutgoingView::ExtendedRequest { oid }) <==> {
            &&& decoded_message(octets) matches Some(m)
            &&& m.message_id == message_id
            &&& m.answer is None
            &&& m.operation matches OperationView::Extended { oid: read, value }
            &&& read == oid
            &&& value is None
        },
{
}

}
