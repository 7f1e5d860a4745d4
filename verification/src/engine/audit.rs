//! The forensic record of every decision.

use vstd::prelude::*;

use crate::engine::action::{Action, ActionView, OperationKind};
use crate::engine::identity::Identity;
use crate::engine::policy::Decision;
use crate::engine::text;

verus! {

/// How many octets of an identity or a target are written to a record.
pub const MAX_LOGGED_FIELD_LEN: usize = 512;

/// The last character boundary at or before `limit`.
pub open spec fn boundary_at_or_before(octets: Seq<u8>, limit: int) -> int
    decreases limit,
{
    if limit <= 0 || vstd::utf8::is_char_boundary(octets, limit) {
        limit
    } else {
        boundary_at_or_before(octets, limit - 1)
    }
}

/// A text as it is written to a record: unchanged when it is short, and
/// otherwise cut at a character boundary, with its full length appended.
pub open spec fn truncated(value: Seq<char>) -> Seq<char> {
    let octets = vstd::utf8::encode_utf8(value);
    if octets.len() <= MAX_LOGGED_FIELD_LEN {
        value
    } else {
        let end = boundary_at_or_before(octets, MAX_LOGGED_FIELD_LEN as int);
        vstd::utf8::decode_utf8(octets.subrange(0, end)) + "... ("@ + text::decimal(octets.len())
            + " bytes total)"@
    }
}

/// Cuts a text to what is written to a record.
pub fn truncate_for_log(value: &str) -> (logged: String)
    ensures
        logged@ == truncated(value@),
{
    let len: usize = value.as_bytes().len();
    if len <= MAX_LOGGED_FIELD_LEN {
        return value.to_owned();
    }
    let ghost octets = vstd::utf8::encode_utf8(value@);
    let mut end: usize = MAX_LOGGED_FIELD_LEN;
    proof {
        vstd::utf8::encode_utf8_valid_utf8(value@);
        vstd::utf8::is_char_boundary_start_end_of_seq(octets);
    }
    while !value.is_char_boundary(end)
        invariant
            end <= MAX_LOGGED_FIELD_LEN < octets.len(),
            octets == vstd::utf8::encode_utf8(value@),
            vstd::utf8::is_char_boundary(octets, 0),
            boundary_at_or_before(octets, end as int) == boundary_at_or_before(
                octets,
                MAX_LOGGED_FIELD_LEN as int,
            ),
        decreases end,
    {
        end -= 1;
    }
    let (kept, _) = value.split_at(end);
    proof {
        vstd::utf8::encode_utf8_decode_utf8(kept@);
    }
    let mut logged = kept.to_owned();
    logged.append("... (");
    text::push_decimal(&mut logged, len as u128);
    logged.append(" bytes total)");
    logged
}

/// How prominent a record is.
#[derive(Debug, Clone, Copy, PartialEq, Eq, Structural)]
pub enum Level {
    Info,
    Warn,
}

/// One record of a decision.
#[derive(Debug, Clone)]
pub struct LogRecord {
    pub level: Level,
    pub message: &'static str,
    pub identity: String,
    pub backend: &'static str,
    pub operation: OperationKind,
    pub target: String,
    pub blast_radius: usize,
    /// Why an action was blocked; nothing for an allowed one.
    pub reason: Option<String>,
}

/// A [`LogRecord`] as a mathematical value.
pub struct LogRecordView {
    pub level: Level,
    pub message: Seq<char>,
    pub identity: Seq<char>,
    pub backend: Seq<char>,
    pub operation: OperationKind,
    pub target: Seq<char>,
    pub blast_radius: nat,
    pub reason: Option<Seq<char>>,
}

impl View for LogRecord {
    type V = LogRecordView;

    open spec fn view(&self) -> LogRecordView {
        LogRecordView {
            level: self.level,
            message: self.message@,
            identity: self.identity@,
            backend: self.backend@,
            operation: self.operation,
            target: self.target@,
            blast_radius: self.blast_radius as nat,
            reason: match self.reason {
                Some(reason) => Some(reason@),
                None => None,
            },
        }
    }
}

/// The record of a decision.
pub open spec fn record_of(
    identity: Seq<char>,
    action: ActionView,
    decision: Option<Seq<char>>,
) -> LogRecordView {
    LogRecordView {
        level: if decision is Some {
            Level::Warn
        } else {
            Level::Info
        },
        message: if decision is Some {
            "action blocked"@
        } else {
            "action allowed"@
        },
        identity: truncated(identity),
        backend: action.backend,
        operation: action.operation,
        target: truncated(action.target),
        blast_radius: action.blast_radius,
        reason: decision,
    }
}

/// Builds the record of a decision, allowed or blocked.
pub fn log_decision(identity: &Identity, action: &Action, decision: &Decision) -> (record:
    LogRecord)
    ensures
        record@ == record_of(identity@, action@, decision@),
{
    let (level, message, reason) = match decision {
        Decision::Allow => (Level::Info, "action allowed", None),
        Decision::Block { reason } => (Level::Warn, "action blocked", Some(reason.clone())),
    };
    LogRecord {
        level,
        message,
        identity: truncate_for_log(identity.0.as_str()),
        backend: action.backend,
        operation: action.operation,
        target: truncate_for_log(action.target.as_str()),
        blast_radius: action.blast_radius,
        reason,
    }
}

/// However long a text is, what is recorded of it keeps at most
/// [`MAX_LOGGED_FIELD_LEN`] octets of it, a whole number of characters from
/// its beginning; the rest is its length in decimal.
pub proof fn records_are_bounded(value: Seq<char>)
    ensures
        ({
            let octets = vstd::utf8::encode_utf8(value);
            exists|kept: Seq<char>|
                #![trigger vstd::utf8::encode_utf8(kept)]
                {
                    &&& vstd::utf8::encode_utf8(kept).len() <= MAX_LOGGED_FIELD_LEN
                    &&& vstd::utf8::encode_utf8(kept) == octets.subrange(
                        0,
                        vstd::utf8::encode_utf8(kept).len() as int,
                    )
                    &&& truncated(value) == if octets.len() <= MAX_LOGGED_FIELD_LEN {
                        kept
                    } else {
                        kept + "... ("@ + text::decimal(octets.len()) + " bytes total)"@
                    }
                }
        }),
{
    let octets = vstd::utf8::encode_utf8(value);
    vstd::utf8::encode_utf8_valid_utf8(value);
    if octets.len() <= MAX_LOGGED_FIELD_LEN {
        assert(octets =~= octets.subrange(0, octets.len() as int));
        assert(vstd::utf8::encode_utf8(value).len() <= MAX_LOGGED_FIELD_LEN);
    } else {
        vstd::utf8::is_char_boundary_start_end_of_seq(octets);
        lemma_boundary(octets, MAX_LOGGED_FIELD_LEN as int);
        let end = boundary_at_or_before(octets, MAX_LOGGED_FIELD_LEN as int);
        vstd::utf8::valid_utf8_split(octets, end);
        vstd::utf8::decode_utf8_encode_utf8(octets.subrange(0, end));
        let kept = vstd::utf8::decode_utf8(octets.subrange(0, end));
        assert(vstd::utf8::encode_utf8(kept) == octets.subrange(0, end));
    }
}

proof fn lemma_boundary(octets: Seq<u8>, limit: int)
    requires
        0 <= limit,
        vstd::utf8::is_char_boundary(octets, 0),
    ensures
        0 <= boundary_at_or_before(octets, limit) <= limit,
        vstd::utf8::is_char_boundary(octets, boundary_at_or_before(octets, limit)),
    decreases limit,
{
    if limit > 0 && !vstd::utf8::is_char_boundary(octets, limit) {
        lemma_boundary(octets, limit - 1);
    }
}

/// What a text that is too long for a record is followed by: dots, and how
/// many octets it has.
pub open spec fn length_note(octets: nat) -> Seq<char> {
    seq!['.', '.', '.', ' ', '('] + text::decimal(octets) + " bytes total)"@
}

proof fn lemma_take_is_a_boundary(value: Seq<char>, k: int)
    requires
        0 <= k <= value.len(),
    ensures
        ({
            let octets = vstd::utf8::encode_utf8(value);
            let n = vstd::utf8::encode_utf8(value.take(k)).len() as int;
            &&& n <= octets.len()
            &&& vstd::utf8::is_char_boundary(octets, n)
            &&& octets.subrange(0, n) == vstd::utf8::encode_utf8(value.take(k))
        }),
    decreases value.len(),
{
    let octets = vstd::utf8::encode_utf8(value);
    vstd::utf8::encode_utf8_valid_utf8(value);
    if k == 0 {
        assert(value.take(0) =~= Seq::<char>::empty());
        assert(vstd::utf8::encode_utf8(value.take(0)).len() == 0);
        assert(octets.subrange(0, 0) =~= vstd::utf8::encode_utf8(value.take(0)));
    } else {
        let rest = value.drop_first();
        lemma_take_is_a_boundary(rest, k - 1);
        assert(value.take(k).drop_first() =~= rest.take(k - 1));
        vstd::utf8::encode_utf8_first_scalar(value);
        let first = vstd::utf8::encode_scalar(value[0] as u32);
        assert(vstd::utf8::pop_first_scalar(octets) =~= vstd::utf8::encode_utf8(rest));
        let n = vstd::utf8::encode_utf8(value.take(k)).len() as int;
        assert(value.take(k)[0] == value[0]);
        let m = vstd::utf8::encode_utf8(rest.take(k - 1)).len() as int;
        assert(n == first.len() + m);
        assert(octets.subrange(0, n) =~= first + vstd::utf8::encode_utf8(rest).subrange(0, m));
    }
}

proof fn lemma_no_boundary_between(octets: Seq<u8>, limit: int, at: int)
    requires
        boundary_at_or_before(octets, limit) < at <= limit,
    ensures
        !vstd::utf8::is_char_boundary(octets, at),
    decreases limit,
{
    if limit > 0 && !vstd::utf8::is_char_boundary(octets, limit) && at < limit {
        lemma_no_boundary_between(octets, limit - 1, at);
    }
}

/// A text of up to 512 octets is recorded as it is. Of a longer one as many
/// whole characters are recorded as fit in 512 octets, the first ones, and
/// then how many octets it has.
pub proof fn records_keep_as_much_as_fits(value: Seq<char>) -> (kept: int)
    ensures
        0 <= kept <= value.len(),
        vstd::utf8::encode_utf8(value).len() <= 512 ==> truncated(value) == value,
        vstd::utf8::encode_utf8(value).len() > 512 ==> {
            &&& kept < value.len()
            &&& vstd::utf8::encode_utf8(value.take(kept)).len() <= 512
            &&& vstd::utf8::encode_utf8(value.take(kept + 1)).len() > 512
            &&& truncated(value) == value.take(kept) + length_note(
                vstd::utf8::encode_utf8(value).len(),
            )
        },
{
    let octets = vstd::utf8::encode_utf8(value);
    if octets.len() <= 512 {
        0
    } else {
        reveal_strlit("... (");
        assert("... ("@ =~= seq!['.', '.', '.', ' ', '(']);
        vstd::utf8::encode_utf8_valid_utf8(value);
        vstd::utf8::encode_utf8_decode_utf8(value);
        vstd::utf8::is_char_boundary_start_end_of_seq(octets);
        lemma_boundary(octets, 512);
        let end = boundary_at_or_before(octets, 512);
        vstd::utf8::valid_utf8_split(octets, end);
        vstd::utf8::decode_utf8_split(octets, end);
        let head = vstd::utf8::decode_utf8(octets.subrange(0, end));
        let kept = head.len() as int;
        assert(value.take(kept) =~= head);
        vstd::utf8::decode_utf8_encode_utf8(octets.subrange(0, end));
        assert(vstd::utf8::encode_utf8(value.take(kept)).len() == end);
        if kept == value.len() {
            assert(value.take(kept) =~= value);
        }
        lemma_take_is_a_boundary(value, kept + 1);
        let next = vstd::utf8::encode_utf8(value.take(kept + 1)).len() as int;
        lemma_take_grows(value, kept);
        if next <= 512 {
            lemma_no_boundary_between(octets, 512, next);
        }
        assert(truncated(value) =~= value.take(kept) + length_note(octets.len()));
        kept
    }
}

proof fn lemma_take_grows(value: Seq<char>, k: int)
    requires
        0 <= k < value.len(),
    ensures
        vstd::utf8::encode_utf8(value.take(k)).len() < vstd::utf8::encode_utf8(
            value.take(k + 1),
        ).len(),
    decreases value.len(),
{
    let longer = value.take(k + 1);
    vstd::utf8::char_is_scalar(longer[0]);
    if k == 0 {
        assert(value.take(0) =~= Seq::<char>::empty());
    } else {
        assert(value.take(k).drop_first() =~= value.drop_first().take(k - 1));
        assert(longer.drop_first() =~= value.drop_first().take(k));
        lemma_take_grows(value.drop_first(), k - 1);
    }
}

/// A record says what was decided about whom and what: a blocked action is a
/// warning that carries the reason, an allowed one is not and carries none;
/// everything else is the action's.
pub proof fn records_say_what_was_decided(
    identity: Seq<char>,
    action: ActionView,
    decision: Option<Seq<char>>,
)
    ensures
        ({
            let record = record_of(identity, action, decision);
            &&& decision matches Some(reason) ==> record.level == Level::Warn && record.message
                == "action blocked"@ && record.reason == Some(reason)
            &&& decision is None ==> record.level == Level::Info && record.message
                == "action allowed"@ && record.reason is None
            &&& record.backend == action.backend
            &&& record.operation == action.operation
            &&& record.blast_radius == action.blast_radius
            &&& record.identity == truncated(identity)
            &&& record.target == truncated(action.target)
        }),
{
}

/// The value of a record is that of its fields.
pub proof fn records_are_known_by_their_fields(record: LogRecord)
    ensures
        record@.level == record.level,
        record@.message == record.message@,
        record@.identity == record.identity@,
        record@.backend == record.backend@,
        record@.operation == record.operation,
        record@.target == record.target@,
        record@.blast_radius == record.blast_radius,
        record.reason is None <==> record@.reason is None,
        record.reason matches Some(reason) ==> record@.reason == Some(reason@),
{
}

}
