//! Messages to and updates from a console, and prompt detection on its output.

use vstd::prelude::*;
use vstd::string::StrSliceExecFns;
use vstd::string::StringSliceAdditionalSpecFns;
use vstd::utf8::{decode_utf8, encode_utf8, valid_utf8};
use crate::api::{find_char, chars_of};
use crate::rest_types::NodeDefinition;
use crate::strings::{
    is_alphanumeric, is_whitespace, is_white_space, spec_is_alphanumeric, utf8_str,
    lemma_utf8_text, lemma_encode_subrange,
};
use crate::term::buffer::{ChunkBuffer, update_chunkbuf, spec_update};

verus! {

/// The size of the window of recent output that prompts are searched in.
pub const CACHE_CAPACITY: usize = 256;

#[derive(Debug, Clone)]
pub enum TermMsg {
    /// Sends data to the terminal
    Data(String),
    /// Sends a WebSocket close message
    Close,
}

impl TermMsg {
    pub fn text(s: String) -> (r: TermMsg)
        ensures
            r matches TermMsg::Data(d) && d@ == s@,
    {
        TermMsg::Data(s)
    }
}

#[derive(Debug)]
pub struct ConsoleUpdate {
    pub last_chunk: Vec<u8>,
    pub last_prompt: Option<(String, bool)>,
    pub was_first: bool,
}

// ---------------------------------------------------------------------------
// Prompt rules
// ---------------------------------------------------------------------------

/// The family of device whose prompt is looked for.
#[derive(Debug, Clone, Copy, PartialEq, Eq)]
pub enum PromptKind {
    Ios,
    Asa,
    Linux,
    Unknown,
}

pub open spec fn spec_prompt_kind(def: &NodeDefinition) -> PromptKind {
    if def.spec_is_ios() {
        PromptKind::Ios
    } else if def.spec_is_asa() {
        PromptKind::Asa
    } else if def.spec_is_linux() {
        PromptKind::Linux
    } else {
        PromptKind::Unknown
    }
}

pub fn prompt_kind(def: &NodeDefinition) -> (r: PromptKind)
    ensures
        r == spec_prompt_kind(def),
{
    if def.is_ios() {
        PromptKind::Ios
    } else if def.is_asa() {
        PromptKind::Asa
    } else if def.is_linux() {
        PromptKind::Linux
    } else {
        PromptKind::Unknown
    }
}

/// The characters that end a prompt.
pub open spec fn is_prompt_end(kind: PromptKind, c: char) -> bool {
    match kind {
        PromptKind::Ios | PromptKind::Asa => c == '>' || c == '#',
        PromptKind::Linux => c == '$' || c == '#',
        PromptKind::Unknown => c == '>' || c == '$' || c == '#',
    }
}

/// The index of the first prompt end in `t`, or its length.
pub open spec fn first_prompt_end(kind: PromptKind, t: Seq<char>, i: int) -> int
    decreases t.len() - i,
{
    if i < 0 || i >= t.len() {
        t.len() as int
    } else if is_prompt_end(kind, t[i]) {
        i
    } else {
        first_prompt_end(kind, t, i + 1)
    }
}

pub open spec fn ios_char(c: char) -> bool {
    spec_is_alphanumeric(c) || c == '.' || c == '-' || c == '_' || c == '(' || c == ')'
}

pub open spec fn asa_char(c: char) -> bool {
    spec_is_alphanumeric(c) || c == '-' || c == '(' || c == ')'
}

/// Whether the text before the prompt end suits the device. For IOS and ASA
/// a prompt takes 2 to 82 bytes; IOS allows letters, digits and `.-_()`; ASA
/// letters, digits and `-()`, starting with a letter or digit and ending
/// with one or `)`. Other devices take any prompt of at most 100 bytes.
pub open spec fn valid_prompt(kind: PromptKind, prompt: Seq<char>) -> bool {
    let blen = encode_utf8(prompt).len();
    let text = prompt.drop_last();
    match kind {
        PromptKind::Ios => 2 <= blen <= 82 && forall|i: int| 0 <= i < text.len() ==> ios_char(#[trigger] text[i]),
        PromptKind::Asa => {
            &&& 2 <= blen <= 82
            &&& text.len() > 0
            &&& spec_is_alphanumeric(text[0])
            &&& (spec_is_alphanumeric(text.last()) || text.last() == ')')
            &&& forall|i: int| 0 <= i < text.len() ==> asa_char(#[trigger] text[i])
        },
        PromptKind::Linux | PromptKind::Unknown => blen <= 100,
    }
}

/// The length of the prompt that a trimmed line starts with: up to and
/// including its first prompt end.
pub open spec fn line_prompt(kind: PromptKind, t: Seq<char>) -> Option<int> {
    let i = first_prompt_end(kind, t, 0);
    if i < t.len() && valid_prompt(kind, t.take(i + 1)) {
        Some(i + 1)
    } else {
        None
    }
}

// ---------------------------------------------------------------------------
// Lines of output
// ---------------------------------------------------------------------------

/// The index of the last `c` before `end`, or -1.
pub open spec fn rfind_char(cs: Seq<char>, c: char, end: int) -> int
    decreases end,
{
    if end <= 0 || end > cs.len() {
        -1
    } else if cs[end - 1] == c {
        end - 1
    } else {
        rfind_char(cs, c, end - 1)
    }
}

pub proof fn lemma_rfind_char_bounds(cs: Seq<char>, c: char, end: int)
    requires
        0 <= end <= cs.len(),
    ensures
        -1 <= rfind_char(cs, c, end) < end,
        rfind_char(cs, c, end) >= 0 ==> cs[rfind_char(cs, c, end)] == c,
        forall|k: int| rfind_char(cs, c, end) < k < end ==> cs[k] != c,
    decreases end,
{
    if end > 0 && cs[end - 1] != c {
        lemma_rfind_char_bounds(cs, c, end - 1);
    }
}

/// The start of `cs[a..b]` with leading white space skipped.
pub open spec fn trim_start(cs: Seq<char>, a: int, b: int) -> int
    decreases b - a,
{
    if a < b && is_white_space(cs[a]) {
        trim_start(cs, a + 1, b)
    } else {
        a
    }
}

/// The end of `cs[a..b]` with trailing white space skipped.
pub open spec fn trim_end(cs: Seq<char>, a: int, b: int) -> int
    decreases b - a,
{
    if a < b && is_white_space(cs[b - 1]) {
        trim_end(cs, a, b - 1)
    } else {
        b
    }
}

/// Trimming keeps within the range trimmed.
pub proof fn lemma_trim_bounds(cs: Seq<char>, a: int, b: int)
    requires
        a <= b,
    ensures
        a <= trim_start(cs, a, b) <= b,
        a <= trim_end(cs, a, b) <= b,
    decreases b - a,
{
    if a < b && is_white_space(cs[a]) {
        lemma_trim_bounds(cs, a + 1, b);
    }
    if a < b && is_white_space(cs[b - 1]) {
        lemma_trim_bounds(cs, a, b - 1);
    }
}

/// The prompt in the lines of `cs` that end at or before `end`: the line
/// that ends at `end` is searched first, then the lines before it. Each line
/// is trimmed of white space; the result is the start and end of the prompt.
pub open spec fn prompt_before(kind: PromptKind, cs: Seq<char>, end: int) -> Option<(int, int)>
    decreases end,
{
    if end < 0 || end > cs.len() {
        None
    } else {
        let p = rfind_char(cs, '\n', end);
        let a = trim_start(cs, p + 1, end);
        let b = trim_end(cs, a, end);
        match line_prompt(kind, cs.subrange(a, b)) {
            Some(k) => Some((a, a + k)),
            None => if p < 0 {
                None
            } else {
                proof {
                    lemma_rfind_char_bounds(cs, '\n', end);
                }
                prompt_before(kind, cs, p)
            },
        }
    }
}

/// The prompt of the last line of `data` that holds one, and whether the
/// output, trailing white space aside, ends with that prompt. Nothing where
/// `data` is not UTF-8.
pub open spec fn spec_find_prompt(kind: PromptKind, data: Seq<u8>) -> Option<(Seq<char>, bool)> {
    if !valid_utf8(data) {
        None
    } else {
        let cs = decode_utf8(data);
        match prompt_before(kind, cs, cs.len() as int) {
            None => None,
            Some((a, b)) => {
                let prompt = cs.subrange(a, b);
                let e = trim_end(cs, 0, cs.len() as int);
                Some((prompt, e >= prompt.len() && cs.subrange(e - prompt.len(), e) == prompt))
            },
        }
    }
}

// ---------------------------------------------------------------------------
// Prompt search
// ---------------------------------------------------------------------------

fn rfind_newline(cs: &Vec<char>, end: usize) -> (r: Option<usize>)
    requires
        end <= cs@.len(),
    ensures
        match r {
            Some(p) => p == rfind_char(cs@, '\n', end as int),
            None => rfind_char(cs@, '\n', end as int) == -1,
        },
{
    let mut e = end;
    while e > 0
        invariant
            e <= end <= cs@.len(),
            rfind_char(cs@, '\n', end as int) == rfind_char(cs@, '\n', e as int),
        decreases e,
    {
        if cs[e - 1] == '\n' {
            return Some(e - 1);
        }
        e = e - 1;
    }
    None
}

fn trim_range(cs: &Vec<char>, a: usize, b: usize) -> (r: (usize, usize))
    requires
        a <= b <= cs@.len(),
    ensures
        r.0 == trim_start(cs@, a as int, b as int),
        r.1 == trim_end(cs@, r.0 as int, b as int),
        a <= r.0 <= r.1 <= b,
{
    let mut s = a;
    while s < b && is_whitespace(cs[s])
        invariant
            a <= s <= b <= cs@.len(),
            trim_start(cs@, a as int, b as int) == trim_start(cs@, s as int, b as int),
        decreases b - s,
    {
        s = s + 1;
    }
    let e = trim_end_exec(cs, s, b);
    (s, e)
}

pub(crate) fn trim_end_exec(cs: &Vec<char>, s: usize, b: usize) -> (r: usize)
    requires
        s <= b <= cs@.len(),
    ensures
        r == trim_end(cs@, s as int, b as int),
        s <= r <= b,
{
    let mut e = b;
    while e > s && is_whitespace(cs[e - 1])
        invariant
            s <= e <= b <= cs@.len(),
            trim_end(cs@, s as int, b as int) == trim_end(cs@, s as int, e as int),
        decreases e,
    {
        e = e - 1;
    }
    e
}

/// `str::trim`: the text without leading and trailing white space.
pub fn trim(s: &str) -> (r: &str)
    ensures
        ({
            let a = trim_start(s@, 0, s@.len() as int);
            r@ == s@.subrange(a, trim_end(s@, a, s@.len() as int))
        }),
{
    let cs = chars_of(s);
    let (a, b) = trim_range(&cs, 0, cs.len());
    s.substring_char(a, b)
}

fn is_end_char(kind: PromptKind, c: char) -> (r: bool)
    ensures
        r == is_prompt_end(kind, c),
{
    match kind {
        PromptKind::Ios | PromptKind::Asa => c == '>' || c == '#',
        PromptKind::Linux => c == '$' || c == '#',
        PromptKind::Unknown => c == '>' || c == '$' || c == '#',
    }
}

/// `first_prompt_end` within `cs[a..b]`, where the search starts at `i`.
proof fn lemma_first_end_window(kind: PromptKind, cs: Seq<char>, a: int, b: int, i: int)
    requires
        0 <= a <= i <= b <= cs.len(),
        forall|k: int| a <= k < i ==> !is_prompt_end(kind, cs[k]),
    ensures
        first_prompt_end(kind, cs.subrange(a, b), 0) == first_prompt_end(kind, cs.subrange(a, b), i - a),
    decreases i - a,
{
    let t = cs.subrange(a, b);
    if i > a {
        lemma_first_end_window(kind, cs, a, b, i - 1);
        assert(t[i - 1 - a] == cs[i - 1]);
    }
}

/// The length of the prompt in the trimmed line `cs[a..b]`, which is a part of `s`.
fn line_prompt_exec(kind: PromptKind, s: &str, cs: &Vec<char>, a: usize, b: usize) -> (r: Option<usize>)
    requires
        cs@ == s@,
        a <= b <= cs@.len(),
        encode_utf8(s@).len() <= usize::MAX,
    ensures
        match r {
            Some(k) => line_prompt(kind, cs@.subrange(a as int, b as int)) == Some(k as int),
            None => line_prompt(kind, cs@.subrange(a as int, b as int)) is None,
        },
{
    let ghost t = cs@.subrange(a as int, b as int);
    let mut i = a;
    while i < b && !is_end_char(kind, cs[i])
        invariant
            a <= i <= b <= cs@.len(),
            forall|k: int| a <= k < i ==> !is_prompt_end(kind, cs@[k]),
        decreases b - i,
    {
        i = i + 1;
    }
    proof {
        lemma_first_end_window(kind, cs@, a as int, b as int, i as int);
        if i < b {
            assert(t[i - a] == cs@[i as int]);
        }
    }
    if i >= b {
        return None;
    }
    let ghost prompt = t.take(i - a + 1);
    let p = s.substring_char(a, i + 1);
    proof {
        assert(prompt =~= cs@.subrange(a as int, i + 1));
        lemma_encode_subrange(s@, a as int, i + 1);
    }
    let blen = p.len();
    assert(blen == encode_utf8(prompt).len());
    let ok = match kind {
        PromptKind::Ios => {
            if !(2 <= blen && blen <= 82) {
                false
            } else {
                let mut j = a;
                while j < i && (is_alphanumeric(cs[j]) || cs[j] == '.' || cs[j] == '-' || cs[j] == '_' || cs[j]
                    == '(' || cs[j] == ')')
                    invariant
                        a <= j <= i < b <= cs@.len(),
                        forall|k: int| a <= k < j ==> ios_char(#[trigger] cs@[k]),
                    decreases i - j,
                {
                    j = j + 1;
                }
                proof {
                    let text = prompt.drop_last();
                    if j >= i {
                        assert forall|k: int| 0 <= k < text.len() implies ios_char(#[trigger] text[k]) by {
                            assert(text[k] == cs@[a + k]);
                        }
                    } else {
                        assert(text[j - a] == cs@[j as int]);
                    }
                }
                j >= i
            }
        },
        PromptKind::Asa => {
            if !(2 <= blen && blen <= 82) {
                false
            } else if i == a {
                false
            } else if !is_alphanumeric(cs[a]) {
                proof {
                    assert(prompt.drop_last()[0] == cs@[a as int]);
                }
                false
            } else if !(is_alphanumeric(cs[i - 1]) || cs[i - 1] == ')') {
                proof {
                    assert(prompt.drop_last().last() == cs@[i - 1]);
                }
                false
            } else {
                let mut j = a;
                while j < i && (is_alphanumeric(cs[j]) || cs[j] == '-' || cs[j] == '(' || cs[j] == ')')
                    invariant
                        a <= j <= i < b <= cs@.len(),
                        forall|k: int| a <= k < j ==> asa_char(#[trigger] cs@[k]),
                    decreases i - j,
                {
                    j = j + 1;
                }
                proof {
                    let text = prompt.drop_last();
                    assert(text[0] == cs@[a as int]);
                    assert(text.last() == cs@[i - 1]);
                    if j >= i {
                        assert forall|k: int| 0 <= k < text.len() implies asa_char(#[trigger] text[k]) by {
                            assert(text[k] == cs@[a + k]);
                        }
                    } else {
                        assert(text[j - a] == cs@[j as int]);
                    }
                }
                j >= i
            }
        },
        PromptKind::Linux | PromptKind::Unknown => blen <= 100,
    };
    if ok {
        Some(i - a + 1)
    } else {
        None
    }
}

/// Finds the prompt in console output, as `spec_find_prompt` describes it.
pub fn find_prompt<'a>(def: &NodeDefinition, data: &'a [u8]) -> (r: Option<(&'a str, bool)>)
    ensures
        match spec_find_prompt(spec_prompt_kind(def), data@) {
            None => r is None,
            Some((p, e)) => r matches Some((q, f)) && q@ == p && f == e,
        },
{
    let kind = prompt_kind(def);
    let s = match utf8_str(data) {
        None => {
            return None;
        },
        Some(s) => s,
    };
    let dlen = data.len();
    proof {
        lemma_utf8_text(s, data@);
        assert(encode_utf8(s@).len() == dlen);
    }
    let cs = chars_of(s);
    let n = cs.len();
    let mut end = n;
    let found: Option<(usize, usize)>;
    loop
        invariant
            cs@ == s@,
            n == cs@.len(),
            end <= n,
            encode_utf8(s@).len() <= usize::MAX,
            prompt_before(kind, cs@, n as int) == prompt_before(kind, cs@, end as int),
        ensures
            match found {
                Some((a, b)) => prompt_before(kind, cs@, n as int) == Some((a as int, b as int)) && a <= b <= n,
                None => prompt_before(kind, cs@, n as int) is None,
            },
        decreases end,
    {
        let p = rfind_newline(&cs, end);
        proof {
            lemma_rfind_char_bounds(cs@, '\n', end as int);
        }
        let start = match p {
            Some(q) => q + 1,
            None => 0,
        };
        let (a, b) = trim_range(&cs, start, end);
        match line_prompt_exec(kind, s, &cs, a, b) {
            Some(k) => {
                found = Some((a, a + k));
                break;
            },
            None => match p {
                None => {
                    found = None;
                    break;
                },
                Some(q) => {
                    end = q;
                },
            },
        }
    }
    match found {
        None => None,
        Some((a, b)) => {
            let prompt = s.substring_char(a, b);
            let e = trim_end_exec(&cs, 0, n);
            let plen = b - a;
            let mut ends = e >= plen;
            if ends {
                let ghost x = cs@.subrange(e - plen, e as int);
                let ghost y = cs@.subrange(a as int, b as int);
                let mut j: usize = 0;
                while j < plen && cs[e - plen + j] == cs[a + j]
                    invariant
                        plen == b - a,
                        plen <= e <= n == cs@.len(),
                        a <= b <= n,
                        j <= plen,
                        x == cs@.subrange(e - plen, e as int),
                        y == cs@.subrange(a as int, b as int),
                        forall|k: int| 0 <= k < j ==> #[trigger] x[k] == y[k],
                    decreases plen - j,
                {
                    assert(x[j as int] == cs@[e - plen + j]);
                    assert(y[j as int] == cs@[a + j]);
                    j = j + 1;
                }
                proof {
                    if j >= plen {
                        assert(x =~= y);
                    } else {
                        assert(x[j as int] != y[j as int]);
                    }
                }
                ends = j >= plen;
            }
            Some((prompt, ends))
        },
    }
}

// ---------------------------------------------------------------------------
// Console output
// ---------------------------------------------------------------------------

/// What a console connection keeps of its output: how many data chunks came,
/// and the window of recent output.
pub struct ConsoleOutput {
    pub received_chunks: usize,
    pub cache: ChunkBuffer,
}

/// `after` is `before` once the data chunk `data` came, and `u` is the
/// update reported for it: the chunk is added to the window, counted, and
/// reported with the prompt found in the new window.
pub open spec fn received(
    before: ConsoleOutput,
    after: ConsoleOutput,
    kind: PromptKind,
    data: Seq<u8>,
    u: ConsoleUpdate,
) -> bool {
    &&& after.cache.wf()
    &&& after.received_chunks == before.received_chunks + 1
    &&& (after.cache.contents(), after.cache.cap()) == spec_update(
        before.cache.contents(),
        before.cache.cap(),
        data,
    )
    &&& u.last_chunk@ == data
    &&& u.was_first == (before.received_chunks == 0)
    &&& match spec_find_prompt(kind, after.cache.contents()) {
        None => u.last_prompt is None,
        Some((p, e)) => u.last_prompt matches Some((q, f)) && q@ == p && f == e,
    }
}

/// A websocket message from the console.
#[derive(Debug, Clone, PartialEq, Eq)]
pub enum ConsoleMessage {
    Text(String),
    Binary(Vec<u8>),
    Ping(Vec<u8>),
    Pong(Vec<u8>),
    Close,
}

/// What a console connection does with a message from the console.
pub enum MessageAction {
    /// Output came: this update is reported.
    Update(ConsoleUpdate),
    /// A ping came: a pong with this payload is sent back.
    Pong(Vec<u8>),
    /// Nothing is done (a close, or a message that the console does not send).
    Ignore,
}

impl ConsoleOutput {
    pub fn new() -> (r: ConsoleOutput)
        ensures
            r.received_chunks == 0,
            r.cache.wf(),
            r.cache.contents() == Seq::<u8>::empty(),
            r.cache.cap() == CACHE_CAPACITY,
    {
        ConsoleOutput { received_chunks: 0, cache: ChunkBuffer::with_capacity(CACHE_CAPACITY) }
    }

    /// Takes in a data chunk from the console: adds it to the window, and
    /// reports it with the prompt found in the window.
    pub fn receive(&mut self, def: &NodeDefinition, data: Vec<u8>) -> (r: ConsoleUpdate)
        requires
            old(self).cache.wf(),
            old(self).received_chunks < usize::MAX,
        ensures
            received(*old(self), *final(self), spec_prompt_kind(def), data@, r),
    {
        let was_first = self.received_chunks == 0;
        self.received_chunks = self.received_chunks + 1;
        update_chunkbuf(&mut self.cache, data.as_slice());
        let last_prompt = match find_prompt(def, self.cache.as_slice()) {
            None => None,
            Some((p, e)) => Some((crate::strings::owned(p), e)),
        };
        ConsoleUpdate { last_chunk: data, last_prompt, was_first }
    }

    /// Handles a message from the console: output becomes an update, a ping
    /// is answered with a pong carrying its payload, anything else is ignored.
    pub fn handle_message(&mut self, def: &NodeDefinition, msg: ConsoleMessage) -> (r: MessageAction)
        requires
            old(self).cache.wf(),
            msg is Binary ==> old(self).received_chunks < usize::MAX,
        ensures
            match msg {
                ConsoleMessage::Binary(data) => r matches MessageAction::Update(u) && received(
                    *old(self),
                    *final(self),
                    spec_prompt_kind(def),
                    data@,
                    u,
                ),
                ConsoleMessage::Ping(p) => r matches MessageAction::Pong(q) && q@ == p@ && *final(self)
                    == *old(self),
                _ => r is Ignore && *final(self) == *old(self),
            },
    {
        match msg {
            ConsoleMessage::Binary(data) => MessageAction::Update(self.receive(def, data)),
            ConsoleMessage::Ping(p) => MessageAction::Pong(p),
            _ => MessageAction::Ignore,
        }
    }
}

proof fn lemma_rfind_past_line(cs: Seq<char>, b: int, end: int)
    requires
        0 <= b <= end <= cs.len(),
        forall|k: int| b <= k < end ==> cs[k] != '\n',
    ensures
        rfind_char(cs, '\n', end) == rfind_char(cs, '\n', b),
    decreases end - b,
{
    if end > b {
        lemma_rfind_past_line(cs, b, end - 1);
    }
}

proof fn lemma_trim_end_past(cs: Seq<char>, a: int, m: int, end: int)
    requires
        a < m <= end <= cs.len(),
        !is_white_space(cs[m - 1]),
        forall|k: int| m <= k < end ==> is_white_space(cs[k]),
    ensures
        trim_end(cs, a, end) == m,
    decreases end - m,
{
    if end > m {
        lemma_trim_end_past(cs, a, m, end - 1);
    }
}

proof fn lemma_first_end_at(kind: PromptKind, t: Seq<char>, j: int, i: int)
    requires
        0 <= j <= i < t.len(),
        is_prompt_end(kind, t[i]),
        forall|k: int| j <= k < i ==> !is_prompt_end(kind, t[k]),
    ensures
        first_prompt_end(kind, t, j) == i,
    decreases i - j,
{
    if j < i {
        lemma_first_end_at(kind, t, j + 1, i);
    }
}

/// A line's prompt runs up to its first prompt end: `>` or `#` on IOS and
/// ASA, `$` or `#` on Linux, any of the three on other devices, where the
/// part up to it suits the device.
pub proof fn law_prompt_end_chars(kind: PromptKind, t: Seq<char>, i: int)
    requires
        0 <= i < t.len(),
        ({
            let ends = |c: char|
                match kind {
                    PromptKind::Ios | PromptKind::Asa => c == '>' || c == '#',
                    PromptKind::Linux => c == '$' || c == '#',
                    PromptKind::Unknown => c == '>' || c == '$' || c == '#',
                };
            &&& ends(t[i])
            &&& forall|k: int| 0 <= k < i ==> !ends(#[trigger] t[k])
        }),
        valid_prompt(kind, t.take(i + 1)),
    ensures
        line_prompt(kind, t) == Some(i + 1),
{
    assert forall|k: int| 0 <= k < i implies !is_prompt_end(kind, #[trigger] t[k]) by {
        let c = t[k];
        match kind {
            PromptKind::Ios | PromptKind::Asa => assert(!(c == '>' || c == '#')),
            PromptKind::Linux => assert(!(c == '$' || c == '#')),
            PromptKind::Unknown => assert(!(c == '>' || c == '$' || c == '#')),
        }
    }
    lemma_first_end_at(kind, t, 0, i);
}

/// On a Linux node the prompt is the last line of output up to its first `$`
/// or `#`, where that part takes at most 100 bytes: whether the line ends in
/// `$` (a user) or `#` (root), and whatever white space follows it.
pub proof fn law_linux_prompt(
    def: NodeDefinition,
    data: Seq<u8>,
    before: Seq<char>,
    line: Seq<char>,
    tail: Seq<char>,
    i: int,
)
    requires
        def.spec_is_linux(),
        valid_utf8(data),
        decode_utf8(data) == before + line + tail,
        before.len() == 0 || before.last() == '\n',
        forall|k: int| 0 <= k < line.len() ==> #[trigger] line[k] != '\n',
        forall|k: int| 0 <= k < tail.len() ==> #[trigger] tail[k] != '\n' && is_white_space(tail[k]),
        0 <= i < line.len(),
        !is_white_space(line[0]),
        !is_white_space(line.last()),
        line[i] == '$' || line[i] == '#',
        forall|k: int| 0 <= k < i ==> #[trigger] line[k] != '$' && line[k] != '#',
        encode_utf8(line.take(i + 1)).len() <= 100,
    ensures
        spec_find_prompt(spec_prompt_kind(&def), data) matches Some((p, _)) && p == line.take(i + 1),
{
    let kind = spec_prompt_kind(&def);
    assert(kind == PromptKind::Linux);
    let cs = decode_utf8(data);
    let b = before.len() as int;
    let l = line.len() as int;
    let n = cs.len() as int;
    assert(forall|k: int| b <= k < n ==> cs[k] != '\n') by {
        assert forall|k: int| b <= k < n implies cs[k] != '\n' by {
            if k < b + l {
                assert(cs[k] == line[k - b]);
            } else {
                assert(cs[k] == tail[k - b - l]);
            }
        }
    }
    lemma_rfind_past_line(cs, b, n);
    if b > 0 {
        assert(cs[b - 1] == before.last());
    }
    assert(rfind_char(cs, '\n', b) == b - 1);
    assert(cs[b] == line[0]);
    assert(trim_start(cs, b, n) == b);
    assert(cs[b + l - 1] == line.last());
    assert forall|k: int| b + l <= k < n implies is_white_space(cs[k]) by {
        assert(cs[k] == tail[k - b - l]);
    }
    lemma_trim_end_past(cs, b, b + l, n);
    assert(cs.subrange(b, b + l) =~= line);
    lemma_first_end_at(kind, line, 0, i);
    assert(line_prompt(kind, line) == Some(i + 1));
    assert(cs.subrange(b, b + i + 1) =~= line.take(i + 1));
}

} // verus!
