//! The directory protocol: which requests are account-affecting, how they are
//! refused, and how identities are claimed and confirmed.

use vstd::prelude::*;

use crate::connector::ber;
use crate::connector::message;
use crate::connector::message::{
    Answer, AnswerKind, AnswerView, Message, Operation, OperationView, Outgoing, ReplyCode, ReplyKind,
};
use crate::engine::action::{Action, ActionView, OperationKind};
use crate::engine::connector::{Connector, ConnectorError};
use crate::engine::net::SocketAddr;
use crate::engine::text;
use crate::engine::tls::UpstreamTls;

verus! {

/// The backend name of every action recognized here.
pub const BACKEND: &'static str = "ldap";

/// The object identifier of the request to upgrade a plaintext connection to
/// TLS.
pub const START_TLS_OID: &'static str = "1.3.6.1.4.1.1466.20037";

/// The object identifier of the Password Modify operation.
pub const PASSWORD_MODIFY_OID: &'static str = "1.3.6.1.4.1.4203.1.11.1";

/// The message ID of the upgrade request sent to an upstream. It is the first
/// message of its connection, so it cannot collide with another one.
pub const START_TLS_UPSTREAM_MESSAGE_ID: u32 = 1;

/// What `str::to_lowercase` makes of a text.
pub uninterp spec fn lowercased(text: Seq<char>) -> Seq<char>;

/// The lowercase form of an ASCII letter; every other character as it is.
pub open spec fn ascii_lowercased(c: char) -> char {
    if 'A' <= c <= 'Z' {
        (c as u32 + 32) as char
    } else {
        c
    }
}

/// `str::to_lowercase` is a function of the text alone. On a text of ASCII
/// characters it changes each capital letter to its small form and nothing
/// else; of other texts nothing more is claimed.
pub assume_specification[ str::to_lowercase ](s: &str) -> (lower: String)
    ensures
        lower@ == lowercased(s@),
        (forall|i: int| 0 <= i < s@.len() ==> (#[trigger] s@[i] as u32) < 128) ==> lower@
            == s@.map_values(|c: char| ascii_lowercased(c)),
;

#[verifier::external_type_specification]
#[verifier::external_body]
pub struct ExUtf8Error(core::str::Utf8Error);

/// `core::str::from_utf8` accepts exactly the valid encodings and keeps the
/// octets.
pub assume_specification[ core::str::from_utf8 ](octets: &[u8]) -> (s: Result<
    &str,
    core::str::Utf8Error,
>)
    ensures
        match s {
            Ok(s) => vstd::utf8::valid_utf8(octets@) && vstd::utf8::encode_utf8(s@) == octets@,
            Err(_) => !vstd::utf8::valid_utf8(octets@),
        },
;

/// The text that octets encode.
pub open spec fn text_of(octets: Seq<u8>) -> Option<Seq<char>> {
    if vstd::utf8::valid_utf8(octets) {
        Some(vstd::utf8::decode_utf8(octets))
    } else {
        None
    }
}

/// Reads octets as text.
pub fn read_text(octets: &[u8]) -> (text: Option<&str>)
    ensures
        match text {
            Some(text) => text_of(octets@) == Some(text@),
            None => text_of(octets@) is None,
        },
{
    match core::str::from_utf8(octets) {
        Ok(text) => {
            proof {
                vstd::utf8::encode_utf8_decode_utf8(text@);
            }
            Some(text)
        },
        Err(_) => None,
    }
}

/// Whether a lowercase attribute name is one whose modification locks or
/// unlocks an account in some common directory schema.
pub open spec fn is_lock_attribute_name(lower: Seq<char>) -> bool {
    ||| lower == "pwdaccountlockedtime"@
    ||| lower == "useraccountcontrol"@
    ||| lower == "nsaccountlock"@
    ||| lower == "shadowexpire"@
}

/// Recognizes the lowercase name of a lock attribute.
pub fn is_lock_attribute(lower: &String) -> (found: bool)
    ensures
        found == is_lock_attribute_name(lower@),
{
    *lower == "pwdaccountlockedtime".to_owned() || *lower == "useraccountcontrol".to_owned()
        || *lower == "nsaccountlock".to_owned() || *lower == "shadowexpire".to_owned()
}

/// The name of an encoded attribute: a sequence that begins with it.
pub open spec fn attribute_name(attribute: Seq<u8>) -> Option<Seq<char>> {
    match ber::first_element(attribute) {
        Some((0x30, fields, _)) => match ber::first_element(fields) {
            Some((0x04, name, _)) => text_of(name),
            _ => None,
        },
        _ => None,
    }
}

/// Reads the name of an encoded attribute.
pub fn read_attribute_name(attribute: &[u8]) -> (name: Option<&str>)
    ensures
        match name {
            Some(name) => attribute_name(attribute@) == Some(name@),
            None => attribute_name(attribute@) is None,
        },
{
    if let Some((0x30, fields, _)) = ber::read_element(attribute) {
        if let Some((0x04, name, _)) = ber::read_element(fields) {
            return read_text(name);
        }
    }
    None
}

/// What a change to an entry amounts to.
#[derive(Debug, Clone, Copy, PartialEq, Eq, Structural)]
pub enum ChangeEffect {
    /// A lock attribute is added or replaced.
    Lock,
    /// A lock attribute is deleted.
    Unlock,
    /// Nothing that policies care about.
    Unrelated,
}

/// What an operation (0 adds, 1 deletes, 2 replaces) on an attribute amounts
/// to.
pub open spec fn effect_on(operation: u8, lower: Seq<char>) -> ChangeEffect {
    if !is_lock_attribute_name(lower) {
        ChangeEffect::Unrelated
    } else if operation == 0 || operation == 2 {
        ChangeEffect::Lock
    } else if operation == 1 {
        ChangeEffect::Unlock
    } else {
        ChangeEffect::Unrelated
    }
}

/// What a change amounts to; none when it cannot be read.
pub open spec fn effect_of(change: (u8, Option<Seq<u8>>)) -> Option<ChangeEffect> {
    match change.1 {
        Some(attribute) => match attribute_name(attribute) {
            Some(name) => Some(effect_on(change.0, lowercased(name))),
            None => None,
        },
        None => None,
    }
}

/// Judges an operation on an attribute, given the attribute's lowercase name.
pub fn judge(operation: u8, lower: &String) -> (effect: ChangeEffect)
    ensures
        effect == effect_on(operation, lower@),
{
    if !is_lock_attribute(lower) {
        ChangeEffect::Unrelated
    } else if operation == 0 || operation == 2 {
        ChangeEffect::Lock
    } else if operation == 1 {
        ChangeEffect::Unlock
    } else {
        ChangeEffect::Unrelated
    }
}

/// Whether a text holds ASCII characters only.
pub open spec fn is_ascii_text(text: Seq<char>) -> bool {
    forall|i: int| 0 <= i < text.len() ==> (#[trigger] text[i] as u32) < 128
}

/// Judges an operation on an attribute. Names are compared without regard to
/// the case of their letters.
pub fn judge_attribute(operation: u8, name: &str) -> (effect: ChangeEffect)
    ensures
        effect == effect_on(operation, lowercased(name@)),
        is_ascii_text(name@) ==> effect == effect_on(
            operation,
            name@.map_values(|c: char| ascii_lowercased(c)),
        ),
{
    judge(operation, &name.to_lowercase())
}

fn judge_change(change: &(u8, Option<Vec<u8>>)) -> (effect: Option<ChangeEffect>)
    ensures
        effect == effect_of(message::change_view(*change)),
{
    match &change.1 {
        Some(attribute) => match read_attribute_name(attribute.as_slice()) {
            Some(name) => Some(judge_attribute(change.0, name)),
            None => None,
        },
        None => None,
    }
}

/// Whether every change can be read.
pub open spec fn all_readable(changes: Seq<(u8, Option<Seq<u8>>)>) -> bool {
    forall|i: int| 0 <= i < changes.len() ==> effect_of(#[trigger] changes[i]) is Some
}

/// Whether some change has the given effect.
pub open spec fn some_effect(changes: Seq<(u8, Option<Seq<u8>>)>, effect: ChangeEffect) -> bool {
    exists|i: int| 0 <= i < changes.len() && effect_of(#[trigger] changes[i]) == Some(effect)
}

/// Whose password a Password Modify request is about: the text of the first
/// field of its value when that is the user identity, and nothing otherwise.
pub open spec fn reset_target(value: Option<Seq<u8>>) -> Seq<char> {
    match value {
        Some(octets) => match ber::first_element(octets) {
            Some((0x30, fields, _)) => match ber::first_element(fields) {
                Some((0x80, user, _)) => match text_of(user) {
                    Some(text) => text,
                    None => Seq::empty(),
                },
                _ => Seq::empty(),
            },
            _ => Seq::empty(),
        },
        None => Seq::empty(),
    }
}

/// Reads whose password a Password Modify request is about.
pub fn read_reset_target(value: &Option<Vec<u8>>) -> (target: String)
    ensures
        target@ == reset_target(text::octets_view(*value)),
{
    if let Some(octets) = value {
        if let Some((0x30, fields, _)) = ber::read_element(octets.as_slice()) {
            if let Some((0x80, user, _)) = ber::read_element(fields) {
                if let Some(text) = read_text(user) {
                    return text.to_owned();
                }
            }
        }
    }
    String::new()
}

/// An action on one entry.
pub open spec fn ldap_action(operation: OperationKind, target: Seq<char>) -> ActionView {
    ActionView { backend: BACKEND@, operation, target, blast_radius: 1 }
}

/// Whether octets are no more than a frame holds: its content, and the six
/// octets before it at most.
pub open spec fn fits_in_frame(octets: Seq<u8>) -> bool {
    octets.len() <= ber::MAX_FRAME_CONTENT_LEN + 6
}

/// The action that an operation asks for, if policies care about it.
pub open spec fn requested_action(operation: OperationView) -> Result<
    Option<ActionView>,
    ConnectorError,
> {
    match operation {
        OperationView::Modify { object, changes } => if !all_readable(changes) {
            Err(ConnectorError::Decode)
        } else if some_effect(changes, ChangeEffect::Lock) {
            Ok(Some(ldap_action(OperationKind::AccountLock, object)))
        } else if some_effect(changes, ChangeEffect::Unlock) {
            Ok(Some(ldap_action(OperationKind::AccountUnlock, object)))
        } else {
            Ok(None)
        },
        OperationView::Delete { entry } => Ok(Some(ldap_action(OperationKind::Delete, entry))),
        OperationView::Add { entry } => Ok(Some(ldap_action(OperationKind::Create, entry))),
        OperationView::Rename { entry } => Ok(Some(ldap_action(OperationKind::Rename, entry))),
        OperationView::Extended { oid, value } => if oid == vstd::utf8::encode_utf8(PASSWORD_MODIFY_OID@) {
            Ok(Some(ldap_action(OperationKind::PasswordReset, reset_target(value))))
        } else {
            Ok(None)
        },
        _ => Ok(None),
    }
}

fn new_action(operation: OperationKind, target: String) -> (action: Action)
    ensures
        action@ == ldap_action(operation, target@),
{
    Action { backend: BACKEND, operation, target, blast_radius: 1 }
}

fn same_octets(a: &[u8], b: &[u8]) -> (same: bool)
    ensures
        same == (a@ == b@),
{
    if a.len() != b.len() {
        return false;
    }
    let mut i: usize = 0;
    while i < a.len()
        invariant
            i <= a@.len(),
            a@.len() == b@.len(),
            forall|j: int| 0 <= j < i ==> a@[j] == b@[j],
        decreases a.len() - i,
    {
        if a[i] != b[i] {
            return false;
        }
        i += 1;
    }
    assert(a@ =~= b@);
    true
}

/// Recognizes the action that an operation asks for.
pub fn recognize(operation: &Operation) -> (action: Result<Option<Action>, ConnectorError>)
    ensures
        crate::engine::connector::is_action(action, requested_action(operation@)),
{
    match operation {
        Operation::Modify(object, changes) => {
            let ghost view = Seq::new(changes@.len(), |i: int| message::change_view(changes@[i]));
            let mut locks: bool = false;
            let mut unlocks: bool = false;
            let mut i: usize = 0;
            while i < changes.len()
                invariant
                    i <= changes@.len(),
                    view == Seq::new(changes@.len(), |i: int| message::change_view(changes@[i])),
                    operation@ matches OperationView::Modify { changes: all, .. } && all == view,
                    forall|j: int| 0 <= j < i ==> effect_of(#[trigger] view[j]) is Some,
                    locks == exists|j: int|
                        0 <= j < i && effect_of(#[trigger] view[j]) == Some(ChangeEffect::Lock),
                    unlocks == exists|j: int|
                        0 <= j < i && effect_of(#[trigger] view[j]) == Some(ChangeEffect::Unlock),
                decreases changes.len() - i,
            {
                let effect = judge_change(&changes[i]);
                assert(effect == effect_of(view[i as int]));
                match effect {
                    Some(ChangeEffect::Lock) => {
                        locks = true;
                    },
                    Some(ChangeEffect::Unlock) => {
                        unlocks = true;
                    },
                    Some(ChangeEffect::Unrelated) => {},
                    None => {
                        return Err(ConnectorError::Decode);
                    },
                }
                i += 1;
            }
            if locks {
                Ok(Some(new_action(OperationKind::AccountLock, object.clone())))
            } else if unlocks {
                Ok(Some(new_action(OperationKind::AccountUnlock, object.clone())))
            } else {
                Ok(None)
            }
        },
        Operation::Delete(entry) => Ok(Some(new_action(OperationKind::Delete, entry.clone()))),
        Operation::Add(entry) => Ok(Some(new_action(OperationKind::Create, entry.clone()))),
        Operation::Rename(entry) => Ok(Some(new_action(OperationKind::Rename, entry.clone()))),
        Operation::Extended(oid, value) => if same_octets(
            oid.as_slice(),
            PASSWORD_MODIFY_OID.as_bytes(),
        ) {
            Ok(Some(new_action(OperationKind::PasswordReset, read_reset_target(value))))
        } else {
            Ok(None)
        },
        _ => Ok(None),
    }
}

/// The kind of answer that belongs to an operation. Operations that are never
/// refused count as modifications.
pub open spec fn reply_kind(operation: OperationView) -> ReplyKind {
    match operation {
        OperationView::Delete { .. } => ReplyKind::Delete,
        OperationView::Add { .. } => ReplyKind::Add,
        OperationView::Rename { .. } => ReplyKind::Rename,
        OperationView::Extended { .. } => ReplyKind::Extended,
        _ => ReplyKind::Modify,
    }
}

/// The answer that refuses a message: of the kind that belongs to it, with
/// the reason for the client to read.
pub open spec fn refusal(operation: OperationView, reason: Seq<char>) -> message::OutgoingView {
    message::OutgoingView::Reply {
        kind: reply_kind(operation),
        code: ReplyCode::UnwillingToPerform,
        matched_dn: Seq::empty(),
        diagnostic: reason,
    }
}

/// The answer that confirms a request to upgrade the connection.
pub open spec fn start_tls_confirmation() -> message::OutgoingView {
    message::OutgoingView::Reply {
        kind: ReplyKind::Extended,
        code: ReplyCode::Success,
        matched_dn: Seq::empty(),
        diagnostic: Seq::empty(),
    }
}

/// The request to upgrade a connection.
pub open spec fn start_tls_message() -> message::OutgoingView {
    message::OutgoingView::ExtendedRequest { oid: vstd::utf8::encode_utf8(START_TLS_OID@) }
}

/// Whether an operation asks to upgrade the connection.
pub open spec fn asks_for_tls(operation: OperationView) -> bool {
    operation matches OperationView::Extended { oid, .. } && oid == vstd::utf8::encode_utf8(
        START_TLS_OID@,
    )
}

/// The identity that an operation claims: the DN of a bind by name and
/// password. Without a name or without a password the directory verifies
/// nothing, so such a bind claims nothing.
pub open spec fn claimed_dn(operation: OperationView) -> Option<Seq<char>> {
    match operation {
        OperationView::Bind { dn, password } => if dn.len() > 0 && password.len() > 0 {
            Some(dn)
        } else {
            None
        },
        _ => None,
    }
}

fn write(message_id: u32, outgoing: Outgoing) -> (octets: Result<Vec<u8>, ConnectorError>)
    ensures
        octets matches Ok(octets) && octets@ == message::encoded_message(message_id, outgoing@)
            && message::reads_back(octets@, message_id, outgoing@),
{
    match message::encode_message(message_id, outgoing) {
        Ok(octets) => Ok(octets),
        Err(_) => Err(ConnectorError::Encode),
    }
}

fn read(frame: &[u8]) -> (message: Result<Message, ConnectorError>)
    ensures
        match message {
            Ok(m) => {
                &&& message::decoded_message(frame@) matches Some(decoded)
                &&& decoded.message_id == m.0
                &&& decoded.operation == m.1@
                &&& fits_in_frame(frame@) ==> requested_action(m.1@) is Ok
            },
            Err(e) => message::decoded_message(frame@) is None && e == ConnectorError::Decode,
        },
{
    match message::decode_message(frame) {
        Ok(m) => Ok(m),
        Err(_) => Err(ConnectorError::Decode),
    }
}

fn read_answer(frame: &[u8]) -> (answer: Result<(u32, Option<Answer>), ConnectorError>)
    ensures
        match answer {
            Ok((message_id, answer)) => {
                &&& message::decoded_message(frame@) matches Some(decoded)
                &&& decoded.message_id == message_id
                &&& decoded.answer == message::answer_view(answer)
                &&& answer is Some ==> decoded.operation is Other
            },
            Err(e) => message::decoded_message(frame@) is None && e == ConnectorError::Decode,
        },
{
    match message::decode_answer(frame) {
        Ok(a) => Ok(a),
        Err(_) => Err(ConnectorError::Decode),
    }
}

/// How the upstream is to be dialed.
pub enum DialPlan<'a> {
    /// Without encryption.
    Plain,
    /// With TLS from the first octet.
    Tls(&'a UpstreamTls),
    /// Without encryption at first; TLS once the upstream has agreed.
    StartTls(&'a UpstreamTls),
}

/// Whether an upstream is to be dialed as planned, given the settings for TLS
/// and whether it is negotiated on a plaintext connection.
pub open spec fn is_planned(
    settings: Option<UpstreamTls>,
    starttls: bool,
    plan: DialPlan<'_>,
) -> bool {
    match plan {
        DialPlan::Plain => settings is None,
        DialPlan::Tls(tls) => settings == Some(*tls) && !starttls,
        DialPlan::StartTls(tls) => settings == Some(*tls) && starttls,
    }
}

/// An upstream is dialed without encryption only if there are no settings for
/// TLS; if there are, it is dialed with them, at once or after asking.
pub proof fn settings_for_tls_are_used(
    settings: Option<UpstreamTls>,
    starttls: bool,
    plan: DialPlan<'_>,
)
    requires
        is_planned(settings, starttls, plan),
    ensures
        plan is Plain <==> settings is None,
        settings is Some && starttls ==> plan is StartTls && *plan->StartTls_0 == settings->Some_0,
        settings is Some && !starttls ==> plan is Tls && *plan->Tls_0 == settings->Some_0,
{
}

/// Why an upstream did not agree to start TLS.
#[derive(Debug, Clone, Copy, PartialEq, Eq, Structural)]
pub enum StartTlsError {
    /// The connection was closed before an answer came.
    Closed,
    /// The answer cannot be read.
    Unreadable,
    /// The answer is not one to an extended request.
    UnexpectedAnswer,
    /// The upstream declined, with the given result code.
    Rejected { result_code: u32 },
}

/// The directory side of the proxy.
#[derive(Debug)]
pub struct LdapConnector {
    upstream_addr: SocketAddr,
    upstream_tls: Option<UpstreamTls>,
    upstream_starttls: bool,
}

impl LdapConnector {
    pub closed spec fn upstream_addr(self) -> SocketAddr {
        self.upstream_addr
    }

    pub closed spec fn upstream_tls(self) -> Option<UpstreamTls> {
        self.upstream_tls
    }

    pub closed spec fn upstream_starttls(self) -> bool {
        self.upstream_starttls
    }

    /// A connector to the given upstream, which is reached over TLS when
    /// there are settings for it.
    pub fn new(upstream_addr: SocketAddr, upstream_tls: Option<UpstreamTls>) -> (connector:
        LdapConnector)
        ensures
            connector.upstream_addr() == upstream_addr,
            connector.upstream_tls() == upstream_tls,
            !connector.upstream_starttls(),
    {
        LdapConnector { upstream_addr, upstream_tls, upstream_starttls: false }
    }

    /// Selects whether TLS is negotiated on a plaintext connection instead of
    /// from the first octet. It has no effect without TLS.
    pub fn with_starttls(self, enabled: bool) -> (connector: LdapConnector)
        ensures
            connector.upstream_addr() == self.upstream_addr(),
            connector.upstream_tls() == self.upstream_tls(),
            connector.upstream_starttls() == enabled,
    {
        LdapConnector {
            upstream_addr: self.upstream_addr,
            upstream_tls: self.upstream_tls,
            upstream_starttls: enabled,
        }
    }

    /// Where the upstream is, and how it is to be dialed.
    pub fn dial_plan(&self) -> (plan: (&SocketAddr, DialPlan<'_>))
        ensures
            *plan.0 == self.upstream_addr(),
            is_planned(self.upstream_tls(), self.upstream_starttls(), plan.1),
            match self.upstream_tls() {
                None => plan.1 is Plain,
                Some(settings) => if self.upstream_starttls() {
                    plan.1 matches DialPlan::StartTls(tls) && *tls == settings
                } else {
                    plan.1 matches DialPlan::Tls(tls) && *tls == settings
                },
            },
    {
        let plan = match &self.upstream_tls {
            None => DialPlan::Plain,
            Some(tls) => if self.upstream_starttls {
                DialPlan::StartTls(tls)
            } else {
                DialPlan::Tls(tls)
            },
        };
        (&self.upstream_addr, plan)
    }

    /// The DN that a bind by name and password claims; none for every other
    /// frame, for an anonymous bind and for one without a password, which the
    /// directory does not verify.
    pub fn bind_identity(&self, frame: &[u8]) -> (identity: Result<Option<String>, ConnectorError>)
        ensures
            match message::decoded_message(frame@) {
                None => identity matches Err(e) && e == ConnectorError::Decode,
                Some(m) => match claimed_dn(m.operation) {
                    Some(dn) => identity matches Ok(Some(name)) && name@ == dn,
                    None => identity matches Ok(None),
                },
            },
    {
        match self.bind_request(frame) {
            Ok(Some((_, dn))) => Ok(Some(dn)),
            Ok(None) => Ok(None),
            Err(e) => Err(e),
        }
    }
}

impl Connector for LdapConnector {
    open spec fn action_in(&self, frame: Seq<u8>) -> Result<Option<ActionView>, ConnectorError> {
        match message::decoded_message(frame) {
            None => Err(ConnectorError::Decode),
            Some(m) => requested_action(m.operation),
        }
    }

    open spec fn rejection_of(&self, frame: Seq<u8>, reason: Seq<char>) -> Result<
        Seq<u8>,
        ConnectorError,
    > {
        match message::decoded_message(frame) {
            None => Err(ConnectorError::Decode),
            Some(m) => Ok(
                message::encoded_message(m.message_id, refusal(m.operation, reason)),
            ),
        }
    }

    open spec fn upgrade_of(&self, frame: Seq<u8>) -> Result<Option<Seq<u8>>, ConnectorError> {
        match message::decoded_message(frame) {
            None => Err(ConnectorError::Decode),
            Some(m) => if asks_for_tls(m.operation) {
                Ok(Some(message::encoded_message(m.message_id, start_tls_confirmation())))
            } else {
                Ok(None)
            },
        }
    }

    open spec fn claim_in(&self, frame: Seq<u8>) -> Result<
        Option<(u32, Seq<char>)>,
        ConnectorError,
    > {
        match message::decoded_message(frame) {
            None => Err(ConnectorError::Decode),
            Some(m) => match claimed_dn(m.operation) {
                Some(dn) => Ok(Some((m.message_id, dn))),
                None => Ok(None),
            },
        }
    }

    open spec fn outcome_in(&self, frame: Seq<u8>) -> Result<Option<(u32, bool)>, ConnectorError> {
        match message::decoded_message(frame) {
            None => Err(ConnectorError::Decode),
            Some(m) => match m.answer {
                Some(AnswerView { kind: AnswerKind::Bind, result_code, .. }) => Ok(
                    Some((m.message_id, result_code == ReplyCode::Success.number())),
                ),
                _ => Ok(None),
            },
        }
    }

    /// It fails only on a message that the codec cannot read.
    fn decode(&self, frame: &[u8]) -> (action: Result<Option<Action>, ConnectorError>)
        ensures
            fits_in_frame(frame@) ==> (action is Err <==> message::decoded_message(frame@) is None),
    {
        match read(frame) {
            Ok(m) => recognize(&m.1),
            Err(e) => Err(e),
        }
    }

    /// Read back, the answer is one to the refused message: it carries the
    /// same message ID, it is of the kind that belongs to the request, its
    /// result code says that the server is unwilling to perform it, its matched
    /// DN is empty, and its diagnostic message is the reason.
    fn build_rejection(&self, frame: &[u8], reason: &str) -> (rejection: Result<
        Vec<u8>,
        ConnectorError,
    >)
        ensures
            match message::decoded_message(frame@) {
                None => rejection matches Err(e) && e == ConnectorError::Decode,
                Some(request) => {
                    &&& rejection matches Ok(octets)
                    &&& message::decoded_message(octets@) == Some(
                        message::MessageView {
                            message_id: request.message_id,
                            operation: OperationView::Other,
                            answer: Some(
                                AnswerView {
                                    kind: reply_kind(request.operation).answer_kind(),
                                    result_code: 53,
                                    matched_dn: Seq::empty(),
                                    diagnostic: reason@,
                                },
                            ),
                        },
                    )
                },
            },
    {
        let m = match read(frame) {
            Ok(m) => m,
            Err(e) => {
                return Err(e);
            },
        };
        let kind = match m.1 {
            Operation::Delete(_) => ReplyKind::Delete,
            Operation::Add(_) => ReplyKind::Add,
            Operation::Rename(_) => ReplyKind::Rename,
            Operation::Extended(_, _) => ReplyKind::Extended,
            _ => ReplyKind::Modify,
        };
        let code = ReplyCode::UnwillingToPerform;
        write(m.0, Outgoing::Reply(kind, code, String::new(), reason.to_owned()))
    }

    /// A confirmation, read back, is one to the request: it carries the same
    /// message ID, and it starts TLS.
    fn upgrade_request(&self, frame: &[u8]) -> (response: Result<Option<Vec<u8>>, ConnectorError>)
        ensures
            match message::decoded_message(frame@) {
                None => response matches Err(e) && e == ConnectorError::Decode,
                Some(request) => if asks_for_tls(request.operation) {
                    &&& response matches Ok(Some(octets))
                    &&& message::reads_back(
                        octets@,
                        request.message_id,
                        start_tls_confirmation(),
                    )
                    &&& start_tls_outcome(Some(octets@)) == Ok::<(), StartTlsError>(())
                } else {
                    response matches Ok(None)
                },
            },
    {
        let m = match read(frame) {
            Ok(m) => m,
            Err(e) => {
                return Err(e);
            },
        };
        let asked = match &m.1 {
            Operation::Extended(oid, _) => same_octets(oid.as_slice(), START_TLS_OID.as_bytes()),
            _ => false,
        };
        if !asked {
            return Ok(None);
        }
        let (kind, code) = (ReplyKind::Extended, ReplyCode::Success);
        match write(m.0, Outgoing::Reply(kind, code, String::new(), String::new())) {
            Ok(octets) => Ok(Some(octets)),
            Err(e) => Err(e),
        }
    }

    fn bind_request(&self, frame: &[u8]) -> (claim: Result<Option<(u32, String)>, ConnectorError>) {
        let m = match read(frame) {
            Ok(m) => m,
            Err(e) => {
                return Err(e);
            },
        };
        match m.1 {
            Operation::Bind(dn, password) => if dn.as_str().is_empty() || password.len() == 0 {
                Ok(None)
            } else {
                Ok(Some((m.0, dn)))
            },
            _ => Ok(None),
        }
    }

    /// An answer to a claim is itself neither a claim nor of concern to
    /// policies.
    fn bind_response(&self, frame: &[u8]) -> (outcome: Result<
        Option<(u32, bool)>,
        ConnectorError,
    >)
        ensures
            outcome matches Ok(Some(_)) ==> {
                &&& self.claim_in(frame@) matches Ok(None)
                &&& self.action_in(frame@) matches Ok(None)
            },
    {
        match read_answer(frame) {
            Ok((message_id, answer)) => match answer {
                Some(Answer::ToBind((result_code, _, _))) => Ok(
                    Some((message_id, result_code == 0)),
                ),
                _ => Ok(None),
            },
            Err(e) => Err(e),
        }
    }
}

/// The request that asks an upstream to start TLS.
pub fn start_tls_request() -> (request: Result<Vec<u8>, ConnectorError>)
    ensures
        request matches Ok(octets) && octets@ == message::encoded_message(
            START_TLS_UPSTREAM_MESSAGE_ID,
            start_tls_message(),
        ) && message::reads_back(octets@, START_TLS_UPSTREAM_MESSAGE_ID, start_tls_message()),
{
    let oid = vstd::slice::slice_to_vec(START_TLS_OID.as_bytes());
    write(START_TLS_UPSTREAM_MESSAGE_ID, Outgoing::ExtendedRequest(oid))
}

/// Whether an upstream agreed to start TLS, given its answer.
pub open spec fn start_tls_outcome(response: Option<Seq<u8>>) -> Result<(), StartTlsError> {
    match response {
        None => Err(StartTlsError::Closed),
        Some(frame) => match message::decoded_message(frame) {
            None => Err(StartTlsError::Unreadable),
            Some(m) => match m.answer {
                Some(AnswerView { kind: AnswerKind::Extended, result_code, .. }) => if result_code
                    == ReplyCode::Success.number() {
                    Ok(())
                } else {
                    Err(StartTlsError::Rejected { result_code })
                },
                _ => Err(StartTlsError::UnexpectedAnswer),
            },
        },
    }
}

/// Decides whether the TLS handshake with an upstream may begin, given its
/// answer to the request.
pub fn check_start_tls_response(response: &Option<Vec<u8>>) -> (agreed: Result<(), StartTlsError>)
    ensures
        agreed == start_tls_outcome(text::octets_view(*response)),
{
    match response {
        None => Err(StartTlsError::Closed),
        Some(frame) => match read_answer(frame.as_slice()) {
            Err(_) => Err(StartTlsError::Unreadable),
            Ok((_, answer)) => match answer {
                Some(Answer::ToExtended((result_code, _, _))) => if result_code == 0 {
                    Ok(())
                } else {
                    Err(StartTlsError::Rejected { result_code })
                },
                _ => Err(StartTlsError::UnexpectedAnswer),
            },
        },
    }
}

/// Every recognized action is one of this backend and affects one entry.
pub proof fn actions_affect_one_entry(operation: OperationView)
    ensures
        requested_action(operation) matches Ok(Some(action)) ==> action.blast_radius == 1
            && action.backend == BACKEND@,
{
}

/// A refused client gets the kind of answer that its request calls for.
pub proof fn refusals_match_their_requests(operation: OperationView)
    ensures
        requested_action(operation) matches Ok(Some(action)) ==> reply_kind(operation)
            == match action.operation {
            OperationKind::AccountLock | OperationKind::AccountUnlock => ReplyKind::Modify,
            OperationKind::Delete => ReplyKind::Delete,
            OperationKind::Create => ReplyKind::Add,
            OperationKind::Rename => ReplyKind::Rename,
            OperationKind::PasswordReset => ReplyKind::Extended,
        },
{
}

/// A frame is at most one of a policed action, a claim of an identity and a
/// request to upgrade the connection.
pub proof fn requests_are_told_apart(connector: LdapConnector, frame: Seq<u8>)
    ensures
        connector.action_in(frame) matches Ok(Some(_)) ==> connector.claim_in(frame) matches Ok(None),
        connector.claim_in(frame) matches Ok(Some(_)) ==> connector.upgrade_of(frame) matches Ok(None),
        connector.action_in(frame) matches Ok(Some(_)) ==> connector.upgrade_of(frame) matches Ok(
            None,
        ),
{
    lemma_oids_differ();
}

proof fn lemma_oids_differ()
    ensures
        vstd::utf8::encode_utf8(START_TLS_OID@) != vstd::utf8::encode_utf8(PASSWORD_MODIFY_OID@),
{
    reveal_strlit("1.3.6.1.4.1.1466.20037");
    reveal_strlit("1.3.6.1.4.1.4203.1.11.1");
    vstd::utf8::encode_utf8_decode_utf8(START_TLS_OID@);
    vstd::utf8::encode_utf8_decode_utf8(PASSWORD_MODIFY_OID@);
    assert(START_TLS_OID@.len() == 22);
    assert(PASSWORD_MODIFY_OID@.len() == 23);
}

/// An unauthenticated bind, one without a name or without a password, claims
/// no identity.
pub proof fn only_password_binds_claim(connector: LdapConnector, frame: Seq<u8>)
    ensures
        connector.claim_in(frame) matches Ok(Some((id, dn))) ==> {
            &&& message::decoded_message(frame) matches Some(m)
            &&& m.message_id == id
            &&& m.operation matches OperationView::Bind { dn: name, password }
            &&& name == dn
            &&& dn.len() > 0
            &&& password.len() > 0
        },
{
}

/// Whatever reads as the upgrade request sent to an upstream is recognized as
/// one, and confirmed, when it reaches a connector of the same protocol.
pub proof fn upgrade_requests_are_recognized(connector: LdapConnector, request: Seq<u8>)
    requires
        message::reads_back(request, START_TLS_UPSTREAM_MESSAGE_ID, start_tls_message()),
    ensures
        connector.upgrade_of(request) == Ok::<Option<Seq<u8>>, ConnectorError>(
            Some(
                message::encoded_message(START_TLS_UPSTREAM_MESSAGE_ID, start_tls_confirmation()),
            ),
        ),
{
}

/// There is an answer for every request that may be blocked, whatever the
/// reason.
pub proof fn every_policed_request_can_be_refused(
    connector: LdapConnector,
    frame: Seq<u8>,
    reason: Seq<char>,
)
    ensures
        connector.action_in(frame) matches Ok(Some(_)) ==> connector.rejection_of(
            frame,
            reason,
        ) is Ok,
{
}

/// The lowercase names that stand for a lock, each of them from another
/// directory schema.
pub open spec fn lock_names() -> Seq<Seq<char>> {
    seq!["pwdaccountlockedtime"@, "useraccountcontrol"@, "nsaccountlock"@, "shadowexpire"@]
}

/// Whether a lowercase name is one of those.
pub open spec fn stands_for_a_lock(lower: Seq<char>) -> bool {
    lock_names().contains(lower)
}

/// The four lock attributes are treated alike: adding one and replacing one
/// are locks, and deleting one is an unlock, whichever of them it is. No other
/// attribute and no other operation is either.
pub proof fn lock_attributes_are_treated_alike(operation: u8, lower: Seq<char>, other: Seq<char>)
    ensures
        stands_for_a_lock(lower) ==> effect_on(0, lower) == ChangeEffect::Lock,
        stands_for_a_lock(lower) ==> effect_on(2, lower) == ChangeEffect::Lock,
        stands_for_a_lock(lower) ==> effect_on(1, lower) == ChangeEffect::Unlock,
        !stands_for_a_lock(lower) || operation > 2 ==> effect_on(operation, lower)
            == ChangeEffect::Unrelated,
        stands_for_a_lock(lower) == stands_for_a_lock(other) ==> effect_on(operation, lower)
            == effect_on(operation, other),
{
    lemma_lock_names(lower);
    lemma_lock_names(other);
}

proof fn lemma_lock_names(lower: Seq<char>)
    ensures
        stands_for_a_lock(lower) == is_lock_attribute_name(lower),
{
    let names = lock_names();
    assert(names[0] == "pwdaccountlockedtime"@);
    assert(names[1] == "useraccountcontrol"@);
    assert(names[2] == "nsaccountlock"@);
    assert(names[3] == "shadowexpire"@);
    if is_lock_attribute_name(lower) {
        let i: int = if lower == names[0] {
            0
        } else if lower == names[1] {
            1
        } else if lower == names[2] {
            2
        } else {
            3
        };
        assert(lower == names[i]);
    }
}

/// Whether two characters are the same letter, in either case, or the same
/// character.
pub open spec fn same_letter(a: char, b: char) -> bool {
    ||| a == b
    ||| 65 <= a as u32 <= 90 && b as u32 == a as u32 + 32
    ||| 65 <= b as u32 <= 90 && a as u32 == b as u32 + 32
}

/// Names of ASCII characters are told apart without regard to the case of
/// their letters, and by nothing less: their lowercase forms are the same if
/// and only if the names are letter by letter the same.
pub proof fn case_is_the_only_difference(a: Seq<char>, b: Seq<char>)
    ensures
        a.map_values(|c: char| ascii_lowercased(c)) == b.map_values(|c: char| ascii_lowercased(c))
            <==> a.len() == b.len() && forall|i: int|
            0 <= i < a.len() ==> same_letter(#[trigger] a[i], b[i]),
        forall|c: char|
            #[trigger] ascii_lowercased(c) == c <==> !(65 <= c as u32 <= 90),
{
    let low_a = a.map_values(|c: char| ascii_lowercased(c));
    let low_b = b.map_values(|c: char| ascii_lowercased(c));
    assert forall|x: char, y: char| #[trigger]
        same_letter(x, y) == (ascii_lowercased(x) == ascii_lowercased(y)) by {
        lemma_ascii_lowercased(x);
        lemma_ascii_lowercased(y);
    }
    assert forall|c: char| #[trigger] ascii_lowercased(c) == c <==> !(65 <= c as u32 <= 90) by {
        lemma_ascii_lowercased(c);
    }
    if low_a == low_b {
        assert(low_a.len() == a.len());
        assert forall|i: int| 0 <= i < a.len() implies same_letter(#[trigger] a[i], b[i]) by {
            assert(low_a[i] == low_b[i]);
            assert(low_a[i] == ascii_lowercased(a[i]));
            assert(low_b[i] == ascii_lowercased(b[i]));
            assert(same_letter(a[i], b[i]) == (ascii_lowercased(a[i]) == ascii_lowercased(b[i])));
        }
    }
    if a.len() == b.len() && (forall|i: int|
        0 <= i < a.len() ==> same_letter(#[trigger] a[i], b[i])) {
        assert forall|i: int| 0 <= i < a.len() implies low_a[i] == low_b[i] by {
            assert(same_letter(a[i], b[i]));
            assert(low_a[i] == ascii_lowercased(a[i]));
            assert(low_b[i] == ascii_lowercased(b[i]));
        }
        assert(low_a =~= low_b);
    }
}

proof fn lemma_ascii_lowercased(c: char)
    ensures
        ascii_lowercased(c) as u32 == if 65 <= c as u32 <= 90 {
            c as u32 + 32
        } else {
            c as u32 as int
        },
{
}

/// The text of an encoded text is that text, and octets have a text only if
/// they are an encoding of it.
pub proof fn encoded_texts_are_read(text: Seq<char>)
    ensures
        text_of(vstd::utf8::encode_utf8(text)) == Some(text),
        forall|octets: Seq<u8>| #[trigger]
            text_of(octets) == Some(text) ==> octets == vstd::utf8::encode_utf8(text),
{
    vstd::utf8::encode_utf8_valid_utf8(text);
    vstd::utf8::encode_utf8_decode_utf8(text);
    assert forall|octets: Seq<u8>| #[trigger] text_of(octets) == Some(text) implies octets
        == vstd::utf8::encode_utf8(text) by {
        vstd::utf8::decode_utf8_encode_utf8(octets);
    }
}

/// An attribute is known by its name: the octet string at the start of the
/// sequence that encodes it, whatever the length fields look like and whatever
/// follows the name or the attribute.
pub proof fn attribute_names_are_read(
    name: Seq<char>,
    outer: Seq<u8>,
    inner: Seq<u8>,
    values: Seq<u8>,
    rest: Seq<u8>,
)
    requires
        ber::announces(inner, vstd::utf8::encode_utf8(name).len()),
        ber::announces(
            outer,
            (seq![4u8] + inner + vstd::utf8::encode_utf8(name) + values).len(),
        ),
    ensures
        attribute_name(
            seq![48u8] + outer + (seq![4u8] + inner + vstd::utf8::encode_utf8(name) + values)
                + rest,
        ) == Some(name),
{
    let octets = vstd::utf8::encode_utf8(name);
    encoded_texts_are_read(name);
    ber::framed_content_is_read(4u8, inner, octets, values);
    ber::framed_content_is_read(48u8, outer, seq![4u8] + inner + octets + values, rest);
}

/// A modification is judged by the names of its attributes alone. If one of
/// the changes adds or replaces a lock attribute, it locks the account, even
/// where another one unlocks it; otherwise, if one of them deletes a lock
/// attribute, it unlocks the account; and otherwise it is of no concern. One
/// whose attributes cannot all be read is an error.
pub proof fn modifications_are_judged_by_their_attributes(
    object: Seq<char>,
    changes: Seq<(u8, Option<Seq<u8>>)>,
    names: Seq<Seq<char>>,
)
    requires
        names.len() == changes.len(),
        forall|i: int|
            0 <= i < changes.len() ==> (#[trigger] changes[i]).1 is Some && attribute_name(
                changes[i].1->Some_0,
            ) == Some(names[i]),
    ensures
        ({
            let locks = exists|i: int|
                0 <= i < changes.len() && stands_for_a_lock(lowercased(#[trigger] names[i])) && (
                changes[i].0 == 0 || changes[i].0 == 2);
            let unlocks = exists|i: int|
                0 <= i < changes.len() && stands_for_a_lock(lowercased(#[trigger] names[i]))
                    && changes[i].0 == 1;
            &&& requested_action(OperationView::Modify { object, changes }) matches Ok(action)
            &&& action is Some <==> locks || unlocks
            &&& action matches Some(action) ==> {
                &&& action.target == object
                &&& action.operation == if locks {
                    OperationKind::AccountLock
                } else {
                    OperationKind::AccountUnlock
                }
            }
        }),
{
    assert forall|i: int| 0 <= i < changes.len() implies effect_of(#[trigger] changes[i]) == Some(
        effect_on(changes[i].0, lowercased(names[i])),
    ) && stands_for_a_lock(lowercased(names[i])) == is_lock_attribute_name(lowercased(names[i])) by {
        lemma_lock_names(lowercased(names[i]));
    }
    if some_effect(changes, ChangeEffect::Lock) {
        let i = choose|i: int|
            0 <= i < changes.len() && effect_of(#[trigger] changes[i]) == Some(ChangeEffect::Lock);
        assert(stands_for_a_lock(lowercased(names[i])));
    }
    if some_effect(changes, ChangeEffect::Unlock) {
        let i = choose|i: int|
            0 <= i < changes.len() && effect_of(#[trigger] changes[i]) == Some(
                ChangeEffect::Unlock,
            );
        assert(stands_for_a_lock(lowercased(names[i])));
    }
    assert forall|i: int|
        0 <= i < changes.len() && stands_for_a_lock(lowercased(#[trigger] names[i])) && (changes[i].0
            == 0 || changes[i].0 == 2) implies some_effect(changes, ChangeEffect::Lock) by {
        assert(effect_of(changes[i]) == Some(ChangeEffect::Lock));
    }
    assert forall|i: int|
        0 <= i < changes.len() && stands_for_a_lock(lowercased(#[trigger] names[i]))
            && changes[i].0 == 1 implies some_effect(changes, ChangeEffect::Unlock) by {
        assert(effect_of(changes[i]) == Some(ChangeEffect::Unlock));
    }
}

/// A modification with an attribute that cannot be read is an error, whatever
/// the other changes are.
pub proof fn unreadable_attributes_are_errors(
    object: Seq<char>,
    changes: Seq<(u8, Option<Seq<u8>>)>,
    at: int,
)
    requires
        0 <= at < changes.len(),
        changes[at].1 matches Some(attribute) ==> attribute_name(attribute) is None,
    ensures
        requested_action(OperationView::Modify { object, changes }) == Err::<
            Option<ActionView>,
            ConnectorError,
        >(ConnectorError::Decode),
{
    assert(effect_of(changes[at]) is None);
}

/// Removing, creating and renaming an entry are actions on that entry, always;
/// a bind, and everything else that is no request to police, is none.
pub proof fn requests_on_entries_are_policed(entry: Seq<char>, password: Seq<u8>)
    ensures
        requested_action(OperationView::Delete { entry }) matches Ok(Some(action))
            && action.operation == OperationKind::Delete && action.target == entry,
        requested_action(OperationView::Add { entry }) matches Ok(Some(action)) && action.operation
            == OperationKind::Create && action.target == entry,
        requested_action(OperationView::Rename { entry }) matches Ok(Some(action))
            && action.operation == OperationKind::Rename && action.target == entry,
        requested_action(OperationView::Bind { dn: entry, password }) matches Ok(None),
        requested_action(OperationView::Other) matches Ok(None),
{
}

/// What is recognized is said to be of the directory backend and to affect one
/// entry.
pub proof fn actions_are_attributed_to_the_directory(operation: OperationView)
    ensures
        requested_action(operation) matches Ok(Some(action)) ==> action.backend == seq![
            'l',
            'd',
            'a',
            'p',
        ] && action.blast_radius == 1,
{
    reveal_strlit("ldap");
    assert("ldap"@ =~= seq!['l', 'd', 'a', 'p']);
}

/// An extended request is a password reset if and only if it carries the
/// object identifier of Password Modify, and it asks to start TLS if and only
/// if it carries the one of that; an identifier of neither kind means neither.
pub proof fn extended_requests_go_by_their_identifier(
    connector: LdapConnector,
    frame: Seq<u8>,
    oid: Seq<u8>,
    value: Option<Seq<u8>>,
    id: u32,
    answer: Option<AnswerView>,
)
    requires
        message::decoded_message(frame) == Some(
            message::MessageView {
                message_id: id,
                operation: OperationView::Extended { oid, value },
                answer,
            },
        ),
    ensures
        oid == vstd::utf8::encode_utf8("1.3.6.1.4.1.4203.1.11.1"@) ==> (connector.action_in(frame) matches Ok(Some(action))
            && action.operation == OperationKind::PasswordReset && action.target == reset_target(
            value,
        )),
        oid != vstd::utf8::encode_utf8("1.3.6.1.4.1.4203.1.11.1"@) ==> connector.action_in(frame) matches Ok(None),
        oid == vstd::utf8::encode_utf8("1.3.6.1.4.1.1466.20037"@) ==> connector.upgrade_of(frame) matches Ok(Some(_)),
        oid != vstd::utf8::encode_utf8("1.3.6.1.4.1.1466.20037"@) ==> connector.upgrade_of(frame) matches Ok(None),
        connector.claim_in(frame) matches Ok(None),
{
}

/// Only extended requests ask to start TLS.
pub proof fn other_requests_upgrade_nothing(connector: LdapConnector, frame: Seq<u8>)
    requires
        message::decoded_message(frame) is Some,
        !(message::decoded_message(frame)->Some_0.operation is Extended),
    ensures
        connector.upgrade_of(frame) matches Ok(None),
{
}

/// A password reset is about the user that its value names first, whatever
/// the length fields look like and whatever follows.
pub proof fn reset_targets_are_read(
    user: Seq<char>,
    outer: Seq<u8>,
    inner: Seq<u8>,
    more: Seq<u8>,
    rest: Seq<u8>,
)
    requires
        ber::announces(inner, vstd::utf8::encode_utf8(user).len()),
        ber::announces(
            outer,
            (seq![128u8] + inner + vstd::utf8::encode_utf8(user) + more).len(),
        ),
    ensures
        reset_target(
            Some(
                seq![48u8] + outer + (seq![128u8] + inner + vstd::utf8::encode_utf8(user) + more)
                    + rest,
            ),
        ) == user,
{
    let octets = vstd::utf8::encode_utf8(user);
    encoded_texts_are_read(user);
    ber::framed_content_is_read(128u8, inner, octets, more);
    ber::framed_content_is_read(48u8, outer, seq![128u8] + inner + octets + more, rest);
}

/// A password reset that names no user, by having no value or by beginning
/// with another field, has an empty target.
pub proof fn resets_may_name_nobody(
    tag: u8,
    field: Seq<u8>,
    outer: Seq<u8>,
    inner: Seq<u8>,
    more: Seq<u8>,
    rest: Seq<u8>,
)
    requires
        ber::announces(inner, field.len()),
        ber::announces(outer, (seq![tag] + inner + field + more).len()),
        tag != 128,
    ensures
        reset_target(None).len() == 0,
        reset_target(
            Some(seq![48u8] + outer + (seq![tag] + inner + field + more) + rest),
        ).len() == 0,
{
    ber::framed_content_is_read(tag, inner, field, more);
    ber::framed_content_is_read(48u8, outer, seq![tag] + inner + field + more, rest);
}

/// A bind claims the DN that it names, under its own message ID, if and only
/// if both its name and its password are not empty; nothing else claims
/// anything.
pub proof fn password_binds_claim_their_name(connector: LdapConnector, frame: Seq<u8>)
    requires
        message::decoded_message(frame) is Some,
    ensures
        ({
            let m = message::decoded_message(frame)->Some_0;
            match m.operation {
                OperationView::Bind { dn, password } => {
                    &&& dn.len() != 0 && password.len() != 0 ==> connector.claim_in(frame) == Ok::<
                        Option<(u32, Seq<char>)>,
                        ConnectorError,
                    >(Some((m.message_id, dn)))
                    &&& dn.len() == 0 || password.len() == 0 ==> connector.claim_in(
                        frame,
                    ) matches Ok(None)
                },
                _ => connector.claim_in(frame) matches Ok(None),
            }
        }),
{
}

/// What cannot be read as a message is an error, whatever is asked about it.
pub proof fn unreadable_frames_are_errors(
    connector: LdapConnector,
    frame: Seq<u8>,
    reason: Seq<char>,
)
    requires
        message::decoded_message(frame) is None,
    ensures
        connector.action_in(frame) == Err::<Option<ActionView>, ConnectorError>(
            ConnectorError::Decode,
        ),
        connector.rejection_of(frame, reason) == Err::<Seq<u8>, ConnectorError>(
            ConnectorError::Decode,
        ),
        connector.upgrade_of(frame) == Err::<Option<Seq<u8>>, ConnectorError>(
            ConnectorError::Decode,
        ),
        connector.claim_in(frame) == Err::<Option<(u32, Seq<char>)>, ConnectorError>(
            ConnectorError::Decode,
        ),
        connector.outcome_in(frame) == Err::<Option<(u32, bool)>, ConnectorError>(
            ConnectorError::Decode,
        ),
{
}

/// The answer to a bind confirms the claim of the same message ID if and only
/// if its result code is 0; no other answer, and no request, says anything
/// about a claim.
pub proof fn bind_answers_settle_claims(connector: LdapConnector, frame: Seq<u8>)
    requires
        message::decoded_message(frame) is Some,
    ensures
        ({
            let m = message::decoded_message(frame)->Some_0;
            match m.answer {
                Some(answer) => {
                    &&& answer.kind == AnswerKind::Bind ==> connector.outcome_in(frame) == Ok::<
                        Option<(u32, bool)>,
                        ConnectorError,
                    >(Some((m.message_id, answer.result_code == 0)))
                    &&& answer.kind != AnswerKind::Bind ==> connector.outcome_in(
                        frame,
                    ) matches Ok(None)
                },
                None => connector.outcome_in(frame) matches Ok(None),
            }
        }),
{
}

/// An upstream has agreed to start TLS if and only if it gave an extended
/// answer of result code 0, under whatever message ID; any other outcome is
/// told by its cause.
pub proof fn agreement_takes_an_extended_success(frame: Seq<u8>)
    ensures
        start_tls_outcome(None) == Err::<(), StartTlsError>(StartTlsError::Closed),
        match message::decoded_message(frame) {
            None => start_tls_outcome(Some(frame)) == Err::<(), StartTlsError>(
                StartTlsError::Unreadable,
            ),
            Some(m) => match m.answer {
                Some(answer) => {
                    &&& answer.kind == AnswerKind::Extended && answer.result_code == 0
                        ==> start_tls_outcome(Some(frame)) is Ok
                    &&& answer.kind == AnswerKind::Extended && answer.result_code != 0
                        ==> start_tls_outcome(Some(frame)) == Err::<(), StartTlsError>(
                        StartTlsError::Rejected { result_code: answer.result_code },
                    )
                    &&& answer.kind != AnswerKind::Extended ==> start_tls_outcome(Some(frame))
                        == Err::<(), StartTlsError>(StartTlsError::UnexpectedAnswer)
                },
                None => start_tls_outcome(Some(frame)) == Err::<(), StartTlsError>(
                    StartTlsError::UnexpectedAnswer,
                ),
            },
        },
{
}

/// Whatever reads back as the refusal of a request is an answer to it: of the
/// same message ID and of the same kind, with result code 53, no matched DN
/// and the reason as it was given. It settles no claim, and is itself no
/// request.
pub proof fn refusals_answer_their_requests(
    connector: LdapConnector,
    octets: Seq<u8>,
    id: u32,
    operation: OperationView,
    reason: Seq<char>,
)
    requires
        message::reads_back(octets, id, refusal(operation, reason)),
    ensures
        ({
            &&& message::decoded_message(octets) matches Some(m)
            &&& m.message_id == id
            &&& m.operation is Other
            &&& m.answer matches Some(answer)
            &&& answer.result_code == 53
            &&& answer.matched_dn.len() == 0
            &&& answer.diagnostic == reason
            &&& operation is Modify ==> answer.kind == AnswerKind::Modify
            &&& operation is Delete ==> answer.kind == AnswerKind::Delete
            &&& operation is Add ==> answer.kind == AnswerKind::Add
            &&& operation is Rename ==> answer.kind == AnswerKind::Rename
            &&& operation is Extended ==> answer.kind == AnswerKind::Extended
            &&& operation is Bind || operation is Other ==> answer.kind == AnswerKind::Modify
        }),
        connector.outcome_in(octets) matches Ok(None),
        connector.action_in(octets) matches Ok(None),
{
}

/// Whatever reads back as the confirmation of an upgrade is an extended answer
/// of result code 0 with no text in it; and whatever reads back as the request
/// for one is an extended request of the identifier of StartTLS without a
/// value.
pub proof fn upgrades_are_asked_for_and_confirmed(octets: Seq<u8>, id: u32)
    ensures
        message::reads_back(octets, id, start_tls_confirmation()) ==> {
            &&& message::decoded_message(octets) matches Some(m)
            &&& m.message_id == id
            &&& m.answer matches Some(answer)
            &&& answer.kind == AnswerKind::Extended
            &&& answer.result_code == 0
            &&& answer.matched_dn.len() == 0
            &&& answer.diagnostic.len() == 0
        },
        message::reads_back(octets, id, start_tls_message()) ==> {
            &&& message::decoded_message(octets) matches Some(m)
            &&& m.message_id == id
            &&& m.operation matches OperationView::Extended { oid, value }
            &&& oid == vstd::utf8::encode_utf8("1.3.6.1.4.1.1466.20037"@)
            &&& value is None
        },
        START_TLS_UPSTREAM_MESSAGE_ID == 1,
{
}

/// What a connector hands back for a request is the encoding of the answer to
/// that very request, and of nothing else.
pub proof fn answers_are_encoded_as_written(
    connector: LdapConnector,
    frame: Seq<u8>,
    reason: Seq<char>,
)
    requires
        message::decoded_message(frame) is Some,
    ensures
        ({
            let id = message::decoded_message(frame)->Some_0.message_id;
            &&& connector.rejection_of(frame, reason) matches Ok(octets)
            &&& exists|kind: ReplyKind|
                octets == #[trigger] message::encoded_message(
                    id,
                    message::OutgoingView::Reply {
                        kind,
                        code: ReplyCode::UnwillingToPerform,
                        matched_dn: Seq::empty(),
                        diagnostic: reason,
                    },
                )
            &&& connector.upgrade_of(frame) matches Ok(Some(octets)) ==> octets
                == message::encoded_message(
                id,
                message::OutgoingView::Reply {
                    kind: ReplyKind::Extended,
                    code: ReplyCode::Success,
                    matched_dn: Seq::empty(),
                    diagnostic: Seq::empty(),
                },
            )
        }),
{
}

/// Octets fit in a frame if they are no more than 16 MiB of content with the
/// longest header before it.
pub proof fn frames_hold_sixteen_mebibytes(octets: Seq<u8>)
    ensures
        fits_in_frame(octets) <==> octets.len() <= 16 * 1024 * 1024 + 6,
{
}

/// An attribute has a name only if it is a sequence that begins with that name
/// as an octet string, and a password reset a user only if its value is a
/// sequence that begins with that user under the tag for it.
pub proof fn names_are_read_from_where_they_stand(
    attribute: Seq<u8>,
    name: Seq<char>,
    value: Seq<u8>,
)
    ensures
        attribute_name(attribute) == Some(name) ==> {
            &&& ber::first_element(attribute) matches Some((outer_tag, fields, _))
            &&& outer_tag == 48
            &&& ber::first_element(fields) matches Some((inner_tag, octets, _))
            &&& inner_tag == 4
            &&& octets == vstd::utf8::encode_utf8(name)
        },
        reset_target(Some(value)) == name && name.len() > 0 ==> {
            &&& ber::first_element(value) matches Some((outer_tag, fields, _))
            &&& outer_tag == 48
            &&& ber::first_element(fields) matches Some((inner_tag, octets, _))
            &&& inner_tag == 128
            &&& octets == vstd::utf8::encode_utf8(name)
        },
{
    encoded_texts_are_read(name);
}

/// What a frame asks for is what its message asks for, under whatever message
/// ID, and a refusal goes back under that ID: to the removal, the creation and
/// the renaming of an entry as an answer of that kind, to an extended request
/// as an extended answer, and to everything else as one to a modification. Two
/// frames with the same request are treated alike.
pub proof fn frames_stand_for_their_messages(
    connector: LdapConnector,
    frame: Seq<u8>,
    other: Seq<u8>,
    reason: Seq<char>,
)
    requires
        message::decoded_message(frame) is Some,
        message::decoded_message(other) is Some,
    ensures
        ({
            let m = message::decoded_message(frame)->Some_0;
            let n = message::decoded_message(other)->Some_0;
            let kind = match m.operation {
                OperationView::Delete { .. } => ReplyKind::Delete,
                OperationView::Add { .. } => ReplyKind::Add,
                OperationView::Rename { .. } => ReplyKind::Rename,
                OperationView::Extended { .. } => ReplyKind::Extended,
                OperationView::Modify { .. } => ReplyKind::Modify,
                OperationView::Bind { .. } => ReplyKind::Modify,
                OperationView::Other => ReplyKind::Modify,
            };
            &&& connector.action_in(frame) == requested_action(m.operation)
            &&& m.operation == n.operation ==> connector.action_in(frame) == connector.action_in(
                other,
            )
            &&& m.operation is Delete ==> (connector.action_in(frame) matches Ok(Some(action))
                && action.operation == OperationKind::Delete && action.target
                == m.operation->Delete_entry)
            &&& m.operation is Add ==> (connector.action_in(frame) matches Ok(Some(action))
                && action.operation == OperationKind::Create && action.target
                == m.operation->Add_entry)
            &&& m.operation is Rename ==> (connector.action_in(frame) matches Ok(Some(action))
                && action.operation == OperationKind::Rename && action.target
                == m.operation->Rename_entry)
            &&& m.operation is Bind || m.operation is Other ==> (connector.action_in(
                frame,
            ) matches Ok(None))
            &&& connector.rejection_of(frame, reason) == Ok::<Seq<u8>, ConnectorError>(
                message::encoded_message(
                    m.message_id,
                    message::OutgoingView::Reply {
                        kind,
                        code: ReplyCode::UnwillingToPerform,
                        matched_dn: Seq::empty(),
                        diagnostic: reason,
                    },
                ),
            )
        }),
{
}

}
