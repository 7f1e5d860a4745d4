//! The framing of BER-encoded messages: a tag octet, a definite length in
//! short or long form, and that many octets of content.

use vstd::prelude::*;
use vstd::slice::slice_subrange;

use crate::engine::text;

verus! {

/// The largest content that one frame may have. It is applied before the
/// content is read, so that a client claiming more gets its connection closed
/// instead of a multi-gigabyte allocation.
pub const MAX_FRAME_CONTENT_LEN: usize = 16_777_216;

/// The number that octets stand for, most significant octet first.
pub open spec fn be_value(octets: Seq<u8>) -> nat
    decreases octets.len(),
{
    if octets.len() == 0 {
        0
    } else {
        be_value(octets.drop_last()) * 256 + octets.last() as nat
    }
}

/// How many further octets hold the length, given the first length octet:
/// none in the short form, and a number of them in the long form.
pub open spec fn length_octets(first: u8) -> nat {
    if first < 128 {
        0
    } else {
        (first - 128) as nat
    }
}

/// How many octets precede the content.
pub open spec fn header_len(bytes: Seq<u8>) -> nat {
    2 + length_octets(bytes[1])
}

/// The length that the header announces for the content.
pub open spec fn content_len(bytes: Seq<u8>) -> nat {
    if bytes[1] < 128 {
        bytes[1] as nat
    } else {
        be_value(bytes.subrange(2, header_len(bytes) as int))
    }
}

/// Whether the first length octet is one that frames may have: the short
/// form, or the long form with one to four octets.
pub open spec fn is_supported_length(first: u8) -> bool {
    first < 128 || 1 <= length_octets(first) <= 4
}

/// Why a frame cannot be read.
#[derive(Debug, Clone, Copy, PartialEq, Eq, Structural)]
pub enum FrameError {
    /// The length is given in a form that frames do not have.
    UnsupportedLength { num_bytes: usize },
    /// The announced content is larger than any frame may be.
    TooLarge { content_len: usize },
    /// The input ends within the frame.
    UnexpectedEof,
}

impl FrameError {
    /// What the error reads.
    pub open spec fn text(self) -> Seq<char> {
        match self {
            FrameError::UnsupportedLength { num_bytes } => {
                "unsupported LDAP message length encoding ("@ + text::decimal(num_bytes as nat)
                    + " length bytes)"@
            },
            FrameError::TooLarge { content_len } => {
                "LDAP message length "@ + text::decimal(content_len as nat)
                    + " exceeds max frame size ("@ + text::decimal(MAX_FRAME_CONTENT_LEN as nat)
                    + " bytes)"@
            },
            FrameError::UnexpectedEof => "LDAP message ends early"@,
        }
    }

    /// The text of the error.
    pub fn message(&self) -> (message: String)
        ensures
            message@ == self.text(),
    {
        match self {
            FrameError::UnsupportedLength { num_bytes } => {
                let mut message = "unsupported LDAP message length encoding (".to_owned();
                text::push_decimal(&mut message, *num_bytes as u128);
                message.append(" length bytes)");
                message
            },
            FrameError::TooLarge { content_len } => {
                let mut message = "LDAP message length ".to_owned();
                text::push_decimal(&mut message, *content_len as u128);
                message.append(" exceeds max frame size (");
                text::push_decimal(&mut message, MAX_FRAME_CONTENT_LEN as u128);
                message.append(" bytes)");
                message
            },
            FrameError::UnexpectedEof => "LDAP message ends early".to_owned(),
        }
    }
}

/// What is to be done about a frame of which some octets have been read.
#[derive(Debug, Clone, Copy, PartialEq, Eq, Structural)]
pub enum FrameProgress {
    /// So many more octets can be read without reading past the frame.
    Need(usize),
    /// The frame is complete, and so many octets long.
    Complete(usize),
}

/// What is to be done about a frame that begins with `have`.
pub open spec fn progress(have: Seq<u8>) -> Result<FrameProgress, FrameError> {
    if have.len() < 2 {
        Ok(FrameProgress::Need(1))
    } else if !is_supported_length(have[1]) {
        Err(FrameError::UnsupportedLength { num_bytes: length_octets(have[1]) as usize })
    } else if have.len() < header_len(have) {
        Ok(FrameProgress::Need((header_len(have) - have.len()) as usize))
    } else if content_len(have) > MAX_FRAME_CONTENT_LEN {
        Err(FrameError::TooLarge { content_len: content_len(have) as usize })
    } else {
        let total = header_len(have) + content_len(have);
        if have.len() < total {
            Ok(FrameProgress::Need((total - have.len()) as usize))
        } else {
            Ok(FrameProgress::Complete(total as usize))
        }
    }
}

proof fn lemma_be_value_bound(octets: Seq<u8>)
    requires
        octets.len() <= 4,
    ensures
        be_value(octets) < 0x1_0000_0000,
        octets.len() <= 3 ==> be_value(octets) < 0x100_0000,
        octets.len() <= 2 ==> be_value(octets) < 0x1_0000,
        octets.len() <= 1 ==> be_value(octets) < 0x100,
    decreases octets.len(),
{
    if octets.len() > 0 {
        lemma_be_value_bound(octets.drop_last());
    }
}

/// Reads a length of up to four octets.
fn read_length(bytes: &[u8], from: usize, to: usize) -> (length: u32)
    requires
        from <= to <= bytes@.len(),
        to - from <= 4,
    ensures
        length == be_value(bytes@.subrange(from as int, to as int)),
{
    let mut length: u32 = 0;
    let mut at: usize = from;
    while at < to
        invariant
            from <= at <= to <= bytes@.len(),
            to - from <= 4,
            length == be_value(bytes@.subrange(from as int, at as int)),
        decreases to - at,
    {
        proof {
            let longer = bytes@.subrange(from as int, at + 1);
            assert(longer.drop_last() =~= bytes@.subrange(from as int, at as int));
            lemma_be_value_bound(longer);
        }
        length = length * 256 + bytes[at] as u32;
        at += 1;
    }
    length
}

/// Decides how to go on reading a frame that begins with `have`.
pub fn frame_progress(have: &[u8]) -> (next: Result<FrameProgress, FrameError>)
    ensures
        next == progress(have@),
{
    if have.len() < 2 {
        return Ok(FrameProgress::Need(1));
    }
    let first: u8 = have[1];
    let (header, content): (usize, u32) = if first < 128 {
        (2, first as u32)
    } else {
        let num_bytes: usize = (first - 128) as usize;
        if num_bytes == 0 || num_bytes > 4 {
            return Err(FrameError::UnsupportedLength { num_bytes });
        }
        if have.len() < 2 + num_bytes {
            return Ok(FrameProgress::Need(2 + num_bytes - have.len()));
        }
        (2 + num_bytes, read_length(have, 2, 2 + num_bytes))
    };
    let content_len: usize = content as usize;
    if content_len > MAX_FRAME_CONTENT_LEN {
        return Err(FrameError::TooLarge { content_len });
    }
    let total: usize = header + content_len;
    if have.len() < total {
        Ok(FrameProgress::Need(total - have.len()))
    } else {
        Ok(FrameProgress::Complete(total))
    }
}

/// What the first frame of `input` is.
pub open spec fn first_frame(input: Seq<u8>) -> Result<Option<Seq<u8>>, FrameError> {
    if input.len() == 0 {
        Ok(None)
    } else {
        match progress(input) {
            Ok(FrameProgress::Complete(total)) => Ok(Some(input.take(total as int))),
            Ok(FrameProgress::Need(_)) => Err(FrameError::UnexpectedEof),
            Err(error) => Err(error),
        }
    }
}

/// Reads the first frame off `input`. None means that the input ended before
/// a frame began.
pub fn read_frame(input: &[u8]) -> (frame: Result<Option<Vec<u8>>, FrameError>)
    ensures
        if input@.len() == 0 {
            frame matches Ok(None)
        } else {
            match progress(input@) {
                Ok(FrameProgress::Complete(total)) => frame matches Ok(Some(bytes)) && bytes@
                    == input@.take(total as int),
                Ok(FrameProgress::Need(_)) => frame matches Err(e) && e
                    == FrameError::UnexpectedEof,
                Err(error) => frame matches Err(e) && e == error,
            }
        },
        match first_frame(input@) {
            Ok(None) => frame matches Ok(None),
            Ok(Some(octets)) => frame matches Ok(Some(bytes)) && bytes@ == octets,
            Err(error) => frame matches Err(e) && e == error,
        },
{
    if input.len() == 0 {
        return Ok(None);
    }
    match frame_progress(input) {
        Ok(FrameProgress::Complete(total)) => {
            let bytes = vstd::slice::slice_to_vec(slice_subrange(input, 0, total));
            assert(bytes@ =~= input@.take(total as int));
            Ok(Some(bytes))
        },
        Ok(FrameProgress::Need(_)) => Err(FrameError::UnexpectedEof),
        Err(error) => Err(error),
    }
}

/// One encoded value at the start of some octets: its tag octet, its content,
/// and what follows it. None when the octets do not hold a whole value with a
/// supported length.
pub open spec fn first_element(bytes: Seq<u8>) -> Option<(u8, Seq<u8>, Seq<u8>)> {
    if bytes.len() < 2 || !is_supported_length(bytes[1]) || bytes.len() < header_len(bytes)
        || bytes.len() < header_len(bytes) + content_len(bytes) {
        None
    } else {
        let start = header_len(bytes) as int;
        let end = start + content_len(bytes);
        Some((bytes[0], bytes.subrange(start, end), bytes.skip(end)))
    }
}

/// Takes the first encoded value off some octets.
pub fn read_element(bytes: &[u8]) -> (element: Option<(u8, &[u8], &[u8])>)
    ensures
        match element {
            Some((tag, content, rest)) => first_element(bytes@) == Some((tag, content@, rest@)),
            None => first_element(bytes@) is None,
        },
{
    if bytes.len() < 2 {
        return None;
    }
    let first: u8 = bytes[1];
    let (start, length): (usize, u32) = if first < 128 {
        (2, first as u32)
    } else {
        let num_bytes: usize = (first - 128) as usize;
        if num_bytes == 0 || num_bytes > 4 || bytes.len() < 2 + num_bytes {
            return None;
        }
        (2 + num_bytes, read_length(bytes, 2, 2 + num_bytes))
    };
    let length: usize = length as usize;
    if bytes.len() - start < length {
        return None;
    }
    let end: usize = start + length;
    let content = slice_subrange(bytes, start, end);
    let rest = slice_subrange(bytes, end, bytes.len());
    assert(rest@ =~= bytes@.skip(end as int));
    Some((bytes[0], content, rest))
}

/// A frame's length is settled by its header: once complete, whatever
/// follows it in the input changes nothing.
pub proof fn frames_delimit_themselves(frame: Seq<u8>, rest: Seq<u8>)
    requires
        progress(frame) == Ok::<FrameProgress, FrameError>(
            FrameProgress::Complete(frame.len() as usize),
        ),
        frame.len() <= usize::MAX,
    ensures
        progress(frame + rest) == progress(frame),
{
    assert((frame + rest).subrange(2, header_len(frame) as int) =~= frame.subrange(
        2,
        header_len(frame) as int,
    ));
}

/// Octets asked for never belong to the next frame: wherever `have` is a
/// beginning of a complete frame, what is asked for is still part of it.
pub proof fn reading_stays_within_the_frame(have: Seq<u8>, frame: Seq<u8>)
    requires
        have.len() < frame.len() <= usize::MAX,
        frame.take(have.len() as int) == have,
        progress(frame) == Ok::<FrameProgress, FrameError>(
            FrameProgress::Complete(frame.len() as usize),
        ),
    ensures
        progress(have) matches Ok(FrameProgress::Need(n)) && 0 < n && have.len() + n <= frame.len(),
{
    if have.len() >= 2 {
        assert(have[1] == frame[1]);
        if have.len() >= header_len(frame) {
            assert(have.subrange(2, header_len(frame) as int) =~= frame.subrange(
                2,
                header_len(frame) as int,
            ));
        }
        lemma_be_value_bound(frame.subrange(2, header_len(frame) as int));
    }
}

/// No frame takes more memory than the largest header and content together.
pub proof fn frames_are_bounded(have: Seq<u8>)
    ensures
        match progress(have) {
            Ok(FrameProgress::Need(n)) => have.len() + n <= MAX_FRAME_CONTENT_LEN + 6,
            Ok(FrameProgress::Complete(total)) => total <= MAX_FRAME_CONTENT_LEN + 6,
            Err(_) => true,
        },
{
}

/// Whether `length` is a definite length field that announces `n` octets: one
/// octet below 128 that is the number itself, or 128 and the number of the
/// octets that follow, one to four, which are the number in base 256, the most
/// significant digit first. A number may be written with leading zeros.
pub open spec fn announces(length: Seq<u8>, n: nat) -> bool {
    ||| length.len() == 1 && length[0] < 128 && length[0] == n
    ||| length.len() == 2 && length[0] == 129 && length[1] == n
    ||| length.len() == 3 && length[0] == 130 && length[1] * 256 + length[2] == n
    ||| length.len() == 4 && length[0] == 131 && length[1] * 65_536 + length[2] * 256 + length[3]
        == n
    ||| length.len() == 5 && length[0] == 132 && length[1] * 16_777_216 + length[2] * 65_536
        + length[3] * 256 + length[4] == n
}

proof fn lemma_header(tag: u8, length: Seq<u8>, n: nat, rest: Seq<u8>)
    requires
        announces(length, n),
    ensures
        ({
            let bytes = seq![tag] + length + rest;
            &&& is_supported_length(bytes[1])
            &&& header_len(bytes) == 1 + length.len()
            &&& content_len(bytes) == n
        }),
{
    reveal_with_fuel(be_value, 5);
    let bytes = seq![tag] + length + rest;
    assert(bytes[1] == length[0]);
    if length[0] >= 128 {
        let digits = bytes.subrange(2, header_len(bytes) as int);
        assert(digits =~= length.skip(1));
        if length.len() >= 3 {
            assert(digits.drop_last() =~= length.subrange(1, length.len() - 1));
        }
        if length.len() >= 4 {
            assert(digits.drop_last().drop_last() =~= length.subrange(1, length.len() - 2));
        }
        if length.len() >= 5 {
            assert(digits.drop_last().drop_last().drop_last() =~= length.subrange(
                1,
                length.len() - 3,
            ));
        }
    }
}

/// Every content of up to 16 MiB can be framed, in the shortest form and in
/// every longer one of up to four length octets: the tag, a length field that
/// announces the content and the content make a frame that is complete at its
/// last octet, whatever follows it, and whose value is that content.
pub proof fn framed_content_is_read(tag: u8, length: Seq<u8>, content: Seq<u8>, rest: Seq<u8>)
    requires
        announces(length, content.len()),
    ensures
        content.len() <= 16_777_216 ==> progress(seq![tag] + length + content + rest) == Ok::<
            FrameProgress,
            FrameError,
        >(FrameProgress::Complete((1 + length.len() + content.len()) as usize)),
        content.len() > 16_777_216 ==> progress(seq![tag] + length + content + rest) == Err::<
            FrameProgress,
            FrameError,
        >(FrameError::TooLarge { content_len: content.len() as usize }),
        first_element(seq![tag] + length + content + rest) == Some((tag, content, rest)),
{
    let bytes = seq![tag] + length + content + rest;
    assert(bytes =~= seq![tag] + length + (content + rest));
    lemma_header(tag, length, content.len(), content + rest);
    let start: int = 1 + length.len() as int;
    assert(bytes.subrange(start, start + content.len()) =~= content);
    assert(bytes.skip(start + content.len()) =~= rest);
}

/// Every number of octets up to the largest content has a length field that
/// announces it, the shortest of them with as few octets as its size takes.
pub proof fn every_content_can_be_announced(n: nat) -> (length: Seq<u8>)
    requires
        n < 0x1_0000_0000,
    ensures
        announces(length, n),
        length.len() == if n < 128 {
            1int
        } else if n < 256 {
            2
        } else if n < 65_536 {
            3
        } else if n < 16_777_216 {
            4
        } else {
            5
        },
{
    if n < 128 {
        seq![n as u8]
    } else if n < 256 {
        seq![129u8, n as u8]
    } else if n < 65_536 {
        seq![130u8, (n / 256) as u8, (n % 256) as u8]
    } else if n < 16_777_216 {
        seq![131u8, (n / 65_536) as u8, (n / 256 % 256) as u8, (n % 256) as u8]
    } else {
        seq![
            132u8,
            (n / 16_777_216) as u8,
            (n / 65_536 % 256) as u8,
            (n / 256 % 256) as u8,
            (n % 256) as u8,
        ]
    }
}

/// A frame that is not complete yet asks for what is missing of it: for the
/// octets up to the end of the header while that is not there, one at a time
/// while not even the first length octet is, and then for all the rest at
/// once. Of a value that is not complete there is nothing to be had.
pub proof fn beginnings_ask_for_the_rest(tag: u8, length: Seq<u8>, content: Seq<u8>, have: int)
    requires
        announces(length, content.len()),
        content.len() <= 16_777_216,
        0 <= have < 1 + length.len() + content.len(),
    ensures
        progress((seq![tag] + length + content).take(have)) == Ok::<FrameProgress, FrameError>(
            FrameProgress::Need(
                if have < 2 {
                    1
                } else if have < 1 + length.len() {
                    (1 + length.len() - have) as usize
                } else {
                    (1 + length.len() + content.len() - have) as usize
                },
            ),
        ),
        first_element((seq![tag] + length + content).take(have)) is None,
{
    let frame = seq![tag] + length + content;
    let begin = frame.take(have);
    lemma_header(tag, length, content.len(), content);
    if have >= 2 {
        assert(begin[1] == frame[1]);
        if have >= 1 + length.len() {
            let end: int = 1 + length.len() as int;
            assert(begin.subrange(2, end) =~= frame.subrange(2, end));
        }
    }
}

/// A length octet of 128, which announces no end, or of more than 132, which
/// announces more octets than a length may have, is refused as soon as it is
/// there.
pub proof fn other_lengths_are_refused(have: Seq<u8>)
    requires
        have.len() >= 2,
        have[1] == 128 || have[1] > 132,
    ensures
        progress(have) == Err::<FrameProgress, FrameError>(
            FrameError::UnsupportedLength { num_bytes: (have[1] - 128) as usize },
        ),
        first_element(have) is None,
{
}

/// More content than 16 MiB is refused as soon as it is announced, before any
/// of it is read.
pub proof fn oversized_content_is_refused_early(tag: u8, length: Seq<u8>, n: nat, more: Seq<u8>)
    requires
        announces(length, n),
        n > 16_777_216,
    ensures
        progress(seq![tag] + length + more) == Err::<FrameProgress, FrameError>(
            FrameError::TooLarge { content_len: n as usize },
        ),
{
    lemma_header(tag, length, n, more);
}

/// Frames are taken off their input one by one and whole: what is read is the
/// tag, the length field and the content, without what follows; input that
/// ends within them is an error, and input that ends before them is none.
pub proof fn frames_are_read_whole(
    tag: u8,
    length: Seq<u8>,
    content: Seq<u8>,
    rest: Seq<u8>,
    have: int,
)
    requires
        announces(length, content.len()),
        content.len() <= 16_777_216,
        0 <= have < 1 + length.len() + content.len(),
    ensures
        first_frame(seq![tag] + length + content + rest) == Ok::<Option<Seq<u8>>, FrameError>(
            Some(seq![tag] + length + content),
        ),
        first_frame((seq![tag] + length + content).take(have)) == if have == 0 {
            Ok::<Option<Seq<u8>>, FrameError>(None)
        } else {
            Err(FrameError::UnexpectedEof)
        },
{
    framed_content_is_read(tag, length, content, rest);
    beginnings_ask_for_the_rest(tag, length, content, have);
    let frame = seq![tag] + length + content;
    assert((frame + rest).take(frame.len() as int) =~= frame);
}

/// While a length field of several octets is not whole, what is missing of it
/// is asked for, whatever the number will be.
pub proof fn length_fields_are_read_whole(have: Seq<u8>)
    requires
        have.len() >= 2,
        129 <= have[1] <= 132,
        have.len() < have[1] - 126,
    ensures
        progress(have) == Ok::<FrameProgress, FrameError>(
            FrameProgress::Need((have[1] - 126 - have.len()) as usize),
        ),
        first_element(have) is None,
{
}

/// What is read as a value is what the octets hold: its tag, a length field
/// that announces its content, its content and what follows, in this order.
pub proof fn values_are_what_they_are_read_from(
    bytes: Seq<u8>,
    tag: u8,
    content: Seq<u8>,
    rest: Seq<u8>,
) -> (length: Seq<u8>)
    requires
        first_element(bytes) == Some((tag, content, rest)),
    ensures
        announces(length, content.len()),
        bytes == seq![tag] + length + content + rest,
{
    reveal_with_fuel(be_value, 5);
    let start = header_len(bytes) as int;
    let length = bytes.subrange(1, start);
    assert(bytes =~= seq![tag] + length + content + rest);
    if bytes[1] >= 128 {
        let digits = bytes.subrange(2, start);
        assert(digits =~= length.skip(1));
        if length.len() >= 3 {
            assert(digits.drop_last() =~= length.subrange(1, length.len() - 1));
        }
        if length.len() >= 4 {
            assert(digits.drop_last().drop_last() =~= length.subrange(1, length.len() - 2));
        }
        if length.len() >= 5 {
            assert(digits.drop_last().drop_last().drop_last() =~= length.subrange(
                1,
                length.len() - 3,
            ));
        }
    }
    length
}

/// Input that begins with a frame that cannot be read is refused for the same
/// reason, however much of it there is.
pub proof fn unreadable_frames_are_refused(
    input: Seq<u8>,
    tag: u8,
    length: Seq<u8>,
    n: nat,
    more: Seq<u8>,
)
    ensures
        input.len() >= 2 && (input[1] == 128 || input[1] > 132) ==> first_frame(input) == Err::<
            Option<Seq<u8>>,
            FrameError,
        >(FrameError::UnsupportedLength { num_bytes: (input[1] - 128) as usize }),
        input.len() >= 2 && 129 <= input[1] <= 132 && input.len() < input[1] - 126 ==> first_frame(
            input,
        ) == Err::<Option<Seq<u8>>, FrameError>(FrameError::UnexpectedEof),
        announces(length, n) && n > 16_777_216 ==> first_frame(seq![tag] + length + more) == Err::<
            Option<Seq<u8>>,
            FrameError,
        >(FrameError::TooLarge { content_len: n as usize }),
{
    if announces(length, n) && n > 16_777_216 {
        oversized_content_is_refused_early(tag, length, n, more);
    }
}

}
