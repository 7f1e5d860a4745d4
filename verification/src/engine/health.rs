//! The answers to liveness and readiness probes.

use vstd::prelude::*;

verus! {

/// Why the endpoint cannot be run.
#[derive(Debug, Clone, PartialEq, Eq)]
pub enum HealthError {
    /// The address cannot be listened on.
    Bind { addr: String },
}

impl HealthError {
    /// What the error reads.
    pub open spec fn text(self) -> Seq<char> {
        match self {
            HealthError::Bind { addr } => "binding health listener on "@ + addr@,
        }
    }

    /// The text of the error.
    pub fn message(&self) -> (message: String)
        ensures
            message@ == self.text(),
    {
        match self {
            HealthError::Bind { addr } => {
                let mut message = "binding health listener on ".to_owned();
                message.append(addr.as_str());
                message
            },
        }
    }
}

/// How long a probe may take to send its request, in seconds.
pub const READ_TIMEOUT_SECS: u64 = 5;

/// How many probes are answered at once.
pub const MAX_CONNECTIONS: usize = 64;

/// How much of a request is read at most.
pub const MAX_REQUEST_LEN: usize = 512;

/// What `String::from_utf8_lossy` makes of octets.
pub uninterp spec fn lossy_text(octets: Seq<u8>) -> Seq<char>;

/// `String::from_utf8_lossy` is a function of the octets alone. Octets that
/// are valid UTF-8 become the text they encode; of others nothing more is
/// claimed.
#[verifier::external_body]
fn read_lossy(octets: &[u8]) -> (s: String)
    ensures
        s@ == lossy_text(octets@),
        vstd::utf8::valid_utf8(octets@) ==> s@ == vstd::utf8::decode_utf8(octets@),
{
    String::from_utf8_lossy(octets).into_owned()
}

/// Whether octets hold the end of a line at `i`.
pub open spec fn line_ends_at(octets: Seq<u8>, i: int) -> bool {
    0 <= i < octets.len() - 1 && octets[i] == 13 && octets[i + 1] == 10
}

/// Whether enough of a request has been read: a whole first line, or as much
/// as is read at all.
pub open spec fn is_enough(octets: Seq<u8>) -> bool {
    octets.len() >= MAX_REQUEST_LEN || exists|i: int| line_ends_at(octets, i)
}

/// Decides whether enough of a request has been read.
pub fn request_complete(have: &[u8]) -> (complete: bool)
    ensures
        complete == is_enough(have@),
{
    if have.len() >= MAX_REQUEST_LEN {
        return true;
    }
    let mut i: usize = 0;
    while i + 1 < have.len()
        invariant
            have@.len() < MAX_REQUEST_LEN,
            i <= have@.len(),
            forall|j: int| 0 <= j < i ==> !line_ends_at(have@, j),
        decreases have.len() - i,
    {
        if have[i] == 13 && have[i + 1] == 10 {
            assert(line_ends_at(have@, i as int));
            return true;
        }
        i += 1;
    }
    false
}

/// Whether a character separates words.
pub open spec fn is_space(c: char) -> bool {
    let n = c as u32;
    ||| 0x09 <= n <= 0x0D
    ||| n == 0x20
    ||| n == 0x85
    ||| n == 0xA0
    ||| n == 0x1680
    ||| 0x2000 <= n <= 0x200A
    ||| n == 0x2028
    ||| n == 0x2029
    ||| n == 0x202F
    ||| n == 0x205F
    ||| n == 0x3000
}

fn separates(c: char) -> (space: bool)
    ensures
        space == is_space(c),
{
    let n: u32 = c as u32;
    (0x09 <= n && n <= 0x0D) || n == 0x20 || n == 0x85 || n == 0xA0 || n == 0x1680 || (0x2000 <= n
        && n <= 0x200A) || n == 0x2028 || n == 0x2029 || n == 0x202F || n == 0x205F || n == 0x3000
}

/// What is left of `s` from the first character on that is a separator, or
/// is not one.
pub open spec fn skip_while(s: Seq<char>, spaces: bool) -> Seq<char>
    decreases s.len(),
{
    if s.len() > 0 && is_space(s[0]) == spaces {
        skip_while(s.skip(1), spaces)
    } else {
        s
    }
}

/// The characters of `s` up to the first separator.
pub open spec fn first_word(s: Seq<char>) -> Seq<char> {
    s.take(s.len() - skip_while(s, false).len())
}

/// The first line of a text.
pub open spec fn first_line(s: Seq<char>) -> Seq<char>
    decreases s.len(),
{
    if s.len() == 0 || s[0] == '\n' {
        Seq::empty()
    } else {
        seq![s[0]] + first_line(s.skip(1))
    }
}

/// The path of a request: the second word of its first line.
pub open spec fn path_of(request: Seq<char>) -> Seq<char> {
    first_word(skip_while(skip_while(skip_while(first_line(request), true), false), true))
}

/// The answer to a probe.
#[derive(Debug, Clone, Copy, PartialEq, Eq, Structural)]
pub enum HealthResponse {
    Healthy,
    Unavailable,
    NotFound,
}

impl HealthResponse {
    /// The answer as it is sent.
    pub open spec fn sent(self) -> Seq<char> {
        match self {
            HealthResponse::Healthy => "HTTP/1.1 200 OK\r\ncontent-length: 0\r\nconnection: close\r\n\r\n"@,
            HealthResponse::Unavailable => "HTTP/1.1 503 Service Unavailable\r\ncontent-length: 0\r\nconnection: close\r\n\r\n"@,
            HealthResponse::NotFound => "HTTP/1.1 404 Not Found\r\ncontent-length: 0\r\nconnection: close\r\n\r\n"@,
        }
    }

    /// The octets of the answer, as text.
    pub fn text(&self) -> (text: &'static str)
        ensures
            text@ == self.sent(),
            text@ == match self {
                HealthResponse::Healthy => "HTTP/1.1 200 OK\r\ncontent-length: 0\r\nconnection: close\r\n\r\n"@,
                HealthResponse::Unavailable => "HTTP/1.1 503 Service Unavailable\r\ncontent-length: 0\r\nconnection: close\r\n\r\n"@,
                HealthResponse::NotFound => "HTTP/1.1 404 Not Found\r\ncontent-length: 0\r\nconnection: close\r\n\r\n"@,
            },
    {
        match self {
            HealthResponse::Healthy => {
                "HTTP/1.1 200 OK\r\ncontent-length: 0\r\nconnection: close\r\n\r\n"
            },
            HealthResponse::Unavailable => {
                "HTTP/1.1 503 Service Unavailable\r\ncontent-length: 0\r\nconnection: close\r\n\r\n"
            },
            HealthResponse::NotFound => {
                "HTTP/1.1 404 Not Found\r\ncontent-length: 0\r\nconnection: close\r\n\r\n"
            },
        }
    }
}

/// The answer to a request for `path`.
pub open spec fn answer_to(path: Seq<char>, shutting_down: bool) -> HealthResponse {
    if path == "/healthz"@ {
        HealthResponse::Healthy
    } else if path == "/readyz"@ {
        if shutting_down {
            HealthResponse::Unavailable
        } else {
            HealthResponse::Healthy
        }
    } else {
        HealthResponse::NotFound
    }
}

/// Answers a request for `path`.
pub fn route(path: &String, shutting_down: bool) -> (response: HealthResponse)
    ensures
        response == answer_to(path@, shutting_down),
{
    if *path == "/healthz".to_owned() {
        HealthResponse::Healthy
    } else if *path == "/readyz".to_owned() {
        if shutting_down {
            HealthResponse::Unavailable
        } else {
            HealthResponse::Healthy
        }
    } else {
        HealthResponse::NotFound
    }
}

fn skip_chars(s: &Vec<char>, from: usize, to: usize, spaces: bool) -> (at: usize)
    requires
        from <= to <= s@.len(),
    ensures
        from <= at <= to,
        s@.subrange(at as int, to as int) == skip_while(
            s@.subrange(from as int, to as int),
            spaces,
        ),
{
    let mut at: usize = from;
    while at < to && separates(s[at]) == spaces
        invariant
            from <= at <= to <= s@.len(),
            skip_while(s@.subrange(at as int, to as int), spaces) == skip_while(
                s@.subrange(from as int, to as int),
                spaces,
            ),
        decreases to - at,
    {
        assert(s@.subrange(at as int, to as int).skip(1) =~= s@.subrange(at + 1, to as int));
        at += 1;
    }
    at
}

proof fn lemma_first_line(s: Seq<char>, n: int)
    requires
        0 <= n <= s.len(),
        forall|i: int| 0 <= i < n ==> s[i] != '\n',
        n == s.len() || s[n] == '\n',
    ensures
        first_line(s) == s.take(n),
    decreases s.len(),
{
    if n > 0 {
        assert forall|i: int| 0 <= i < n - 1 implies s.skip(1)[i] != '\n' by {
            assert(s.skip(1)[i] == s[i + 1]);
        }
        lemma_first_line(s.skip(1), n - 1);
        assert(s.take(n) =~= seq![s[0]] + s.skip(1).take(n - 1));
    } else {
        assert(s.take(0) =~= Seq::<char>::empty());
    }
}

/// Takes the path off a request.
pub fn request_path(request: &str) -> (path: String)
    ensures
        path@ == path_of(request@),
{
    let len: usize = request.unicode_len();
    let mut chars: Vec<char> = Vec::new();
    let mut end: usize = 0;
    while end < len && request.get_char(end) != '\n'
        invariant
            end <= len == request@.len(),
            chars@ == request@.take(end as int),
            forall|i: int| 0 <= i < end ==> request@[i] != '\n',
        decreases len - end,
    {
        chars.push(request.get_char(end));
        end += 1;
        assert(request@.take(end as int) =~= request@.take(end - 1).push(request@[end - 1]));
    }
    proof {
        lemma_first_line(request@, end as int);
        assert(chars@.subrange(0, end as int) =~= chars@);
    }
    let method: usize = skip_chars(&chars, 0, end, true);
    let gap: usize = skip_chars(&chars, method, end, false);
    let start: usize = skip_chars(&chars, gap, end, true);
    let stop: usize = skip_chars(&chars, start, end, false);
    let mut path = String::new();
    let mut i: usize = start;
    while i < stop
        invariant
            start <= i <= stop <= chars@.len(),
            path@ == chars@.subrange(start as int, i as int),
        decreases stop - i,
    {
        path.push(chars[i]);
        i += 1;
        assert(chars@.subrange(start as int, i as int) =~= chars@.subrange(
            start as int,
            i - 1,
        ).push(chars@[i - 1]));
    }
    proof {
        let rest = chars@.subrange(start as int, end as int);
        assert(chars@.subrange(stop as int, end as int).len() == end - stop);
        assert(first_word(rest) =~= chars@.subrange(start as int, stop as int));
    }
    path
}

/// Answers a probe, given what was read of its request.
pub fn respond(request: &[u8], shutting_down: bool) -> (response: HealthResponse)
    ensures
        response == answer_to(path_of(lossy_text(request@)), shutting_down),
        vstd::utf8::valid_utf8(request@) ==> response == answer_to(
            path_of(vstd::utf8::decode_utf8(request@)),
            shutting_down,
        ),
{
    let text = read_lossy(request);
    let path = request_path(text.as_str());
    route(&path, shutting_down)
}

/// Liveness does not depend on shutdown: a process that drains is alive.
pub proof fn liveness_survives_shutdown(shutting_down: bool)
    ensures
        answer_to("/healthz"@, shutting_down) == HealthResponse::Healthy,
{
}

/// Readiness ends the moment shutdown is requested.
pub proof fn readiness_follows_shutdown(shutting_down: bool)
    ensures
        answer_to("/readyz"@, shutting_down) == if shutting_down {
            HealthResponse::Unavailable
        } else {
            HealthResponse::Healthy
        },
{
    reveal_strlit("/healthz");
    reveal_strlit("/readyz");
    assert("/healthz"@.len() != "/readyz"@.len());
}

/// Every other path is unknown.
pub proof fn other_paths_are_unknown(path: Seq<char>, shutting_down: bool)
    requires
        path != "/healthz"@,
        path != "/readyz"@,
    ensures
        answer_to(path, shutting_down) == HealthResponse::NotFound,
{
}

/// Whether a text is one word: not empty, and without separators.
pub open spec fn is_word(s: Seq<char>) -> bool {
    s.len() > 0 && forall|i: int| 0 <= i < s.len() ==> !is_space(#[trigger] s[i])
}

proof fn lemma_skip_word(word: Seq<char>, rest: Seq<char>)
    requires
        forall|i: int| 0 <= i < word.len() ==> !is_space(#[trigger] word[i]),
        rest.len() > 0,
        is_space(rest[0]),
    ensures
        skip_while(word + rest, false) == rest,
    decreases word.len(),
{
    if word.len() == 0 {
        assert(word + rest =~= rest);
    } else {
        assert((word + rest)[0] == word[0]);
        assert((word + rest).skip(1) =~= word.skip(1) + rest);
        assert forall|i: int| 0 <= i < word.skip(1).len() implies !is_space(
            #[trigger] word.skip(1)[i],
        ) by {
            assert(word.skip(1)[i] == word[i + 1]);
        }
        lemma_skip_word(word.skip(1), rest);
    }
}

proof fn lemma_first_line_concat(a: Seq<char>, b: Seq<char>)
    requires
        forall|i: int| 0 <= i < a.len() ==> #[trigger] a[i] != '\n',
    ensures
        first_line(a + b) == a + first_line(b),
    decreases a.len(),
{
    if a.len() == 0 {
        assert(a + b =~= b);
        assert(a + first_line(b) =~= first_line(b));
    } else {
        assert((a + b)[0] == a[0]);
        assert((a + b).skip(1) =~= a.skip(1) + b);
        assert forall|i: int| 0 <= i < a.skip(1).len() implies #[trigger] a.skip(1)[i] != '\n' by {
            assert(a.skip(1)[i] == a[i + 1]);
        }
        lemma_first_line_concat(a.skip(1), b);
        assert(seq![a[0]] + (a.skip(1) + first_line(b)) =~= a + first_line(b));
    }
}

/// A request line is read as it is meant: whatever the method is and whatever
/// follows, the path is the word after the method.
pub proof fn request_lines_name_their_path(
    method: Seq<char>,
    path: Seq<char>,
    rest: Seq<char>,
)
    requires
        is_word(method),
        is_word(path),
    ensures
        path_of(method + seq![' '] + path + seq![' '] + rest) == path,
{
    let begin = method + seq![' '] + path + seq![' '];
    let request = method + seq![' '] + path + seq![' '] + rest;
    assert(request =~= begin + rest);
    assert forall|i: int| 0 <= i < begin.len() implies #[trigger] begin[i] != '\n' by {
        if i < method.len() {
            assert(begin[i] == method[i]);
        } else if i > method.len() && i < begin.len() - 1 {
            assert(begin[i] == path[i - method.len() - 1]);
        }
    }
    lemma_first_line_concat(begin, rest);
    let line = begin + first_line(rest);
    let after_path = seq![' '] + first_line(rest);
    let after_method = seq![' '] + (path + after_path);
    assert(line =~= method + after_method);
    assert(!is_space(method[0]) && line[0] == method[0]);
    assert(skip_while(line, true) == line);
    lemma_skip_word(method, after_method);
    assert(after_method.skip(1) =~= path + after_path);
    assert(!is_space(path[0]) && (path + after_path)[0] == path[0]);
    assert(skip_while(path + after_path, true) == path + after_path);
    assert(skip_while(after_method, true) == path + after_path);
    lemma_skip_word(path, after_path);
    assert((path + after_path).take(path.len() as int) =~= path);
}

/// Once a whole line has been read, what follows it cannot change the path:
/// it does not matter in how many pieces a request arrives.
pub proof fn the_first_line_decides(line: Seq<char>, more: Seq<char>, even_more: Seq<char>)
    requires
        forall|i: int| 0 <= i < line.len() ==> #[trigger] line[i] != '\n',
    ensures
        path_of(line + seq!['\n'] + more + even_more) == path_of(line + seq!['\n'] + more),
{
    let longer = seq!['\n'] + (more + even_more);
    let shorter = seq!['\n'] + more;
    assert(line + seq!['\n'] + more + even_more =~= line + longer);
    assert(line + seq!['\n'] + more =~= line + shorter);
    lemma_first_line_concat(line, longer);
    lemma_first_line_concat(line, shorter);
    assert(longer[0] == '\n' && shorter[0] == '\n');
}

/// Whether a text consists of separators other than the end of a line.
pub open spec fn is_gap(s: Seq<char>) -> bool {
    forall|i: int| 0 <= i < s.len() ==> is_space(#[trigger] s[i]) && s[i] != '\n'
}

proof fn lemma_skip_gap(gap: Seq<char>, rest: Seq<char>)
    requires
        forall|i: int| 0 <= i < gap.len() ==> is_space(#[trigger] gap[i]),
        rest.len() > 0 ==> !is_space(rest[0]),
    ensures
        skip_while(gap + rest, true) == rest,
    decreases gap.len(),
{
    if gap.len() == 0 {
        assert(gap + rest =~= rest);
    } else {
        assert((gap + rest)[0] == gap[0]);
        assert((gap + rest).skip(1) =~= gap.skip(1) + rest);
        assert forall|i: int| 0 <= i < gap.skip(1).len() implies is_space(
            #[trigger] gap.skip(1)[i],
        ) by {
            assert(gap.skip(1)[i] == gap[i + 1]);
        }
        lemma_skip_gap(gap.skip(1), rest);
    }
}

proof fn lemma_skip_last_word(word: Seq<char>)
    requires
        forall|i: int| 0 <= i < word.len() ==> !is_space(#[trigger] word[i]),
    ensures
        skip_while(word, false).len() == 0,
    decreases word.len(),
{
    if word.len() > 0 {
        assert forall|i: int| 0 <= i < word.skip(1).len() implies !is_space(
            #[trigger] word.skip(1)[i],
        ) by {
            assert(word.skip(1)[i] == word[i + 1]);
        }
        lemma_skip_last_word(word.skip(1));
    }
}

/// The path is the second word of the first line, however many separators
/// stand before, between and after the words, and whether or not anything
/// follows it.
pub proof fn the_path_is_the_second_word(
    before: Seq<char>,
    method: Seq<char>,
    between: Seq<char>,
    path: Seq<char>,
    after: Seq<char>,
)
    requires
        is_gap(before),
        is_word(method),
        is_gap(between),
        between.len() > 0,
        is_word(path),
        after.len() > 0 ==> is_space(after[0]),
    ensures
        path_of(before + method + between + path + after) == path,
{
    let begin = before + method + between + path;
    assert(before + method + between + path + after =~= begin + after);
    assert forall|i: int| 0 <= i < begin.len() implies #[trigger] begin[i] != '\n' by {
        let a = before.len() as int;
        let b = a + method.len();
        let c = b + between.len();
        if i < a {
            assert(begin[i] == before[i]);
        } else if i < b {
            assert(begin[i] == method[i - a]);
        } else if i < c {
            assert(begin[i] == between[i - b]);
        } else {
            assert(begin[i] == path[i - c]);
        }
    }
    lemma_first_line_concat(begin, after);
    let tail = first_line(after);
    let from_path = path + tail;
    let from_gap = between + from_path;
    let from_method = method + from_gap;
    assert(begin + tail =~= before + from_method);
    assert(from_method[0] == method[0] && !is_space(method[0]));
    lemma_skip_gap(before, from_method);
    assert(from_gap[0] == between[0] && is_space(between[0]));
    lemma_skip_word(method, from_gap);
    assert(from_path[0] == path[0] && !is_space(path[0]));
    lemma_skip_gap(between, from_path);
    if tail.len() > 0 {
        assert(tail[0] == after[0]);
        lemma_skip_word(path, tail);
    } else {
        assert(from_path =~= path);
        lemma_skip_last_word(path);
    }
    assert(from_path.take(path.len() as int) =~= path);
}

/// A first line of fewer than two words names no path, which is unknown.
pub proof fn a_lone_word_is_no_path(
    before: Seq<char>,
    word: Seq<char>,
    after: Seq<char>,
    more: Seq<char>,
    shutting_down: bool,
)
    requires
        is_gap(before),
        word.len() > 0 ==> is_word(word),
        is_gap(after),
        more.len() > 0 ==> more[0] == '\n',
    ensures
        path_of(before + word + after + more).len() == 0,
        answer_to(path_of(before + word + after + more), shutting_down)
            == HealthResponse::NotFound,
{
    let line = before + word + after;
    assert forall|i: int| 0 <= i < line.len() implies #[trigger] line[i] != '\n' by {
        let a = before.len() as int;
        let b = a + word.len();
        if i < a {
            assert(line[i] == before[i]);
        } else if i < b {
            assert(line[i] == word[i - a]);
        } else {
            assert(line[i] == after[i - b]);
        }
    }
    assert(before + word + after + more =~= line + more);
    lemma_first_line_concat(line, more);
    assert(first_line(more).len() == 0);
    assert(line + first_line(more) =~= line);
    let nothing = Seq::<char>::empty();
    lemma_skip_gap(after, nothing);
    assert(after + nothing =~= after);
    if word.len() > 0 {
        let rest = word + after;
        assert(line =~= before + rest);
        assert(rest[0] == word[0] && !is_space(word[0]));
        lemma_skip_gap(before, rest);
        if after.len() > 0 {
            assert(is_space(after[0]));
            lemma_skip_word(word, after);
        } else {
            assert(rest =~= word);
            lemma_skip_last_word(word);
        }
    } else {
        let gap = before + after;
        assert(line =~= gap);
        assert forall|i: int| 0 <= i < gap.len() implies is_space(#[trigger] gap[i]) by {
            if i < before.len() {
                assert(gap[i] == before[i]);
            } else {
                assert(gap[i] == after[i - before.len()]);
            }
        }
        lemma_skip_gap(gap, nothing);
        assert(gap + nothing =~= gap);
    }
    assert(path_of(before + word + after + more).len() == 0);
    reveal_strlit("/healthz");
    reveal_strlit("/readyz");
}

/// Of the ASCII characters, the blank and the control characters from the tab
/// to the carriage return separate words; no visible one does.
pub proof fn ascii_separators_are_blanks(c: char)
    requires
        (c as u32) < 128,
    ensures
        is_space(c) <==> c == ' ' || c == '\t' || c == '\n' || c == '\r' || c as u32 == 11
            || c as u32 == 12,
{
}

/// Beyond ASCII, nineteen characters separate words.
pub proof fn other_separators(c: char)
    requires
        c as u32 >= 128,
    ensures
        is_space(c) <==> seq![
            0x85u32,
            0xA0,
            0x1680,
            0x2000,
            0x2001,
            0x2002,
            0x2003,
            0x2004,
            0x2005,
            0x2006,
            0x2007,
            0x2008,
            0x2009,
            0x200A,
            0x2028,
            0x2029,
            0x202F,
            0x205F,
            0x3000,
        ].contains(c as u32),
{
    let all = seq![
        0x85u32,
        0xA0,
        0x1680,
        0x2000,
        0x2001,
        0x2002,
        0x2003,
        0x2004,
        0x2005,
        0x2006,
        0x2007,
        0x2008,
        0x2009,
        0x200A,
        0x2028,
        0x2029,
        0x202F,
        0x205F,
        0x3000,
    ];
    if is_space(c) {
        let n = c as u32;
        let i: int = if n == 0x85 {
            0
        } else if n == 0xA0 {
            1
        } else if n == 0x1680 {
            2
        } else if n <= 0x200A {
            n - 0x2000 + 3
        } else if n == 0x2028 {
            14
        } else if n == 0x2029 {
            15
        } else if n == 0x202F {
            16
        } else if n == 0x205F {
            17
        } else {
            18
        };
        assert(all[i] == n);
    }
}

/// A request is complete as soon as its first line is, wherever that ends, or
/// 512 octets of it have been read, and not before; once complete it stays so.
pub proof fn a_line_completes_a_request(line: Seq<u8>, more: Seq<u8>)
    ensures
        is_enough(line + seq![13u8, 10u8] + more),
        line.len() >= 512 ==> is_enough(line),
        line.len() < 512 && (forall|i: int|
            0 <= i < line.len() - 1 ==> !(#[trigger] line[i] == 13 && line[i + 1] == 10))
            ==> !is_enough(line),
        is_enough(line) ==> is_enough(line + more),
{
    let request = line + seq![13u8, 10u8] + more;
    assert(line_ends_at(request, line.len() as int));
    if is_enough(line) && line.len() < 512 {
        let i = choose|i: int| line_ends_at(line, i);
        assert(line_ends_at(line + more, i));
    }
}

/// Probes get five seconds, and 64 of them are answered at once.
pub proof fn probes_are_limited()
    ensures
        READ_TIMEOUT_SECS == 5,
        MAX_CONNECTIONS == 64,
        MAX_REQUEST_LEN == 512,
{
}

/// What an error in running the endpoint reads: where it should have listened.
pub proof fn health_errors_read(addr: String)
    ensures
        (HealthError::Bind { addr }).text() == "binding health listener on "@ + addr@,
{
}

/// An answer is a status line, which begins with the version and the status
/// code, and says that nothing follows; it ends with an empty line.
pub proof fn answers_are_complete(response: HealthResponse)
    ensures
        ({
            let sent = response.sent();
            let n = sent.len() as int;
            &&& n > 16
            &&& sent.take(9) == seq!['H', 'T', 'T', 'P', '/', '1', '.', '1', ' ']
            &&& sent.subrange(9, 12) == match response {
                HealthResponse::Healthy => seq!['2', '0', '0'],
                HealthResponse::Unavailable => seq!['5', '0', '3'],
                HealthResponse::NotFound => seq!['4', '0', '4'],
            }
            &&& sent.skip(n - 4) == seq!['\r', '\n', '\r', '\n']
            &&& exists|status: Seq<char>|
                sent == #[trigger] (status
                    + "\r\ncontent-length: 0\r\nconnection: close\r\n\r\n"@)
        }),
{
    reveal_strlit("HTTP/1.1 200 OK\r\ncontent-length: 0\r\nconnection: close\r\n\r\n");
    reveal_strlit(
        "HTTP/1.1 503 Service Unavailable\r\ncontent-length: 0\r\nconnection: close\r\n\r\n",
    );
    reveal_strlit("HTTP/1.1 404 Not Found\r\ncontent-length: 0\r\nconnection: close\r\n\r\n");
    reveal_strlit("\r\ncontent-length: 0\r\nconnection: close\r\n\r\n");
    let sent = response.sent();
    let tail = "\r\ncontent-length: 0\r\nconnection: close\r\n\r\n"@;
    let status = sent.take(sent.len() - tail.len());
    assert(sent =~= status + tail);
}

}
