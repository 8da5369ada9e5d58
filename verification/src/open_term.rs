//! The `open` sub-command: which console a destination names.

use vstd::prelude::*;
use crate::api::{chars_of, find_char, find_char_exec, parse_decimal, spec_parse_decimal};
use crate::strings::{owned, str_eq};
use crate::rest_types::State;
use crate::rest_types::key::Console;
use crate::terminal::ConsoleSearchError;

verus! {

/// Opens a console of a node.
#[derive(Debug, Clone)]
pub struct SubCmdOpen {
    /// Boots the machine if necessary.
    pub boot: bool,
    /// Shows lab/node identifiers when completing.
    pub ids: bool,
    /// Shows console keys when completing.
    pub uuids: bool,
    /// Exposes the raw console to standard input and output.
    pub raw: bool,
    /// Uses the SSH terminal instead of the websocket one.
    pub ssh: bool,
    /// A console key, or `/lab/node[/line]`.
    pub uuid_or_lab: String,
}

/// What a destination names.
#[derive(Debug, Clone, PartialEq, Eq)]
pub enum OpenTarget {
    /// A console key.
    Uuid(String),
    /// A lab, a node of it, and a line number if one is given.
    Path { lab: String, node: String, line: Option<String> },
    /// A path of another shape.
    Invalid,
}

/// The parts of `s` between slashes.
pub open spec fn split_slash(s: Seq<char>) -> Seq<Seq<char>>
    decreases s.len(),
{
    let i = find_char(s, '/', 0);
    if i >= s.len() {
        seq![s]
    } else {
        proof {
            crate::api::lemma_find_char_bounds(s, '/', 0);
        }
        seq![s.take(i)] + split_slash(s.skip(i + 1))
    }
}

pub open spec fn spec_open_target(dest: Seq<char>) -> OpenTargetView {
    if !(dest.len() > 0 && dest[0] == '/') {
        OpenTargetView::Uuid(dest)
    } else {
        let parts = split_slash(dest);
        if parts.len() == 3 && parts[0].len() == 0 {
            OpenTargetView::Path(parts[1], parts[2], None)
        } else if parts.len() == 4 && parts[0].len() == 0 {
            OpenTargetView::Path(parts[1], parts[2], Some(parts[3]))
        } else {
            OpenTargetView::Invalid
        }
    }
}

/// A destination as plain values.
pub enum OpenTargetView {
    Uuid(Seq<char>),
    Path(Seq<char>, Seq<char>, Option<Seq<char>>),
    Invalid,
}

pub open spec fn target_view(t: OpenTarget) -> OpenTargetView {
    match t {
        OpenTarget::Uuid(u) => OpenTargetView::Uuid(u@),
        OpenTarget::Path { lab, node, line } => OpenTargetView::Path(lab@, node@, match line {
            Some(l) => Some(l@),
            None => None,
        }),
        OpenTarget::Invalid => OpenTargetView::Invalid,
    }
}

/// Splits `s` at slashes.
fn split_at_slashes(s: &str) -> (r: Vec<String>)
    ensures
        r@.map_values(|p: String| p@) == split_slash(s@),
{
    let cs = chars_of(s);
    let mut parts: Vec<String> = Vec::new();
    let mut start: usize = 0;
    proof {
        assert(s@.skip(0) =~= s@);
        assert(parts@.map_values(|p: String| p@) + split_slash(s@) =~= split_slash(s@));
    }
    loop
        invariant
            cs@ == s@,
            start <= cs@.len(),
            parts@.map_values(|p: String| p@) + split_slash(s@.skip(start as int)) == split_slash(s@),
        decreases cs@.len() - start,
    {
        let i = find_char_exec(&cs, '/', start);
        let ghost t = s@.skip(start as int);
        proof {
            crate::open_term::lemma_find_skip(s@, '/', start as int);
        }
        let part = owned(s.substring_char(start, i));
        let ghost prev = parts@;
        parts.push(part);
        proof {
            assert(t.take(i - start) =~= s@.subrange(start as int, i as int));
            assert(parts@.map_values(|p: String| p@) =~= prev.map_values(|p: String| p@).push(
                s@.subrange(start as int, i as int),
            ));
        }
        if i >= cs.len() {
            proof {
                assert(split_slash(t) == seq![t]);
                assert(t =~= s@.subrange(start as int, i as int));
                assert(parts@.map_values(|p: String| p@) =~= prev.map_values(|p: String| p@) + seq![t]);
            }
            return parts;
        }
        proof {
            assert(t.skip(i - start + 1) =~= s@.skip(i + 1));
            assert(split_slash(t) == seq![t.take(i - start)] + split_slash(t.skip(i - start + 1)));
            assert(prev.map_values(|p: String| p@) + split_slash(t) =~= parts@.map_values(|p: String| p@)
                + split_slash(s@.skip(i + 1)));
        }
        start = i + 1;
    }
}

/// Searching from `k` finds what searching the rest of the text from `k` finds.
pub proof fn lemma_find_skip(s: Seq<char>, c: char, k: int)
    requires
        0 <= k <= s.len(),
    ensures
        find_char(s.skip(k), c, 0) == find_char(s, c, k) - k,
{
    lemma_find_skip_from(s, c, k, k);
}

proof fn lemma_find_skip_from(s: Seq<char>, c: char, k: int, j: int)
    requires
        0 <= k <= j <= s.len(),
    ensures
        find_char(s.skip(k), c, j - k) == find_char(s, c, j) - k,
    decreases s.len() - j,
{
    if j < s.len() {
        assert(s.skip(k)[j - k] == s[j]);
        if s[j] != c {
            lemma_find_skip_from(s, c, k, j + 1);
        }
    }
}

impl SubCmdOpen {
    /// What the destination names: a console key where it does not start
    /// with `/`, else `/lab/node` or `/lab/node/line`.
    pub fn target(&self) -> (r: OpenTarget)
        ensures
            target_view(r) == spec_open_target(self.uuid_or_lab@),
    {
        let dest = self.uuid_or_lab.as_str();
        let cs = chars_of(dest);
        if !(cs.len() > 0 && cs[0] == '/') {
            return OpenTarget::Uuid(owned(dest));
        }
        let mut parts = split_at_slashes(dest);
        let ghost pv = parts@.map_values(|p: String| p@);
        proof {
            assert(forall|i: int| 0 <= i < parts@.len() ==> pv[i] == #[trigger] parts@[i]@);
        }
        if parts.len() == 3 && parts[0].as_str().is_empty() {
            let node = parts.pop().unwrap();
            let lab = parts.pop().unwrap();
            OpenTarget::Path { lab, node, line: None }
        } else if parts.len() == 4 && parts[0].as_str().is_empty() {
            let line = parts.pop().unwrap();
            let node = parts.pop().unwrap();
            let lab = parts.pop().unwrap();
            OpenTarget::Path { lab, node, line: Some(line) }
        } else {
            OpenTarget::Invalid
        }
    }
}

/// The line number of a destination, where it is a decimal number.
pub fn parse_line(s: &str) -> (r: Option<u64>)
    ensures
        match r {
            Some(v) => spec_parse_decimal(s@, u64::MAX as int) == Some(v as int),
            None => spec_parse_decimal(s@, u64::MAX as int) is None,
        },
{
    let cs = chars_of(s);
    proof {
        assert(cs@.subrange(0, cs@.len() as int) =~= s@);
    }
    parse_decimal(&cs, 0, cs.len(), u64::MAX)
}

/// The index of the first console key `uuid` of `keys`, if any.
pub fn find_console_key(keys: &Vec<(String, Console)>, uuid: &str) -> (r: Option<usize>)
    ensures
        match r {
            Some(i) => i < keys@.len() && keys@[i as int].0@ == uuid@ && forall|j: int|
                0 <= j < i ==> (#[trigger] keys@[j]).0@ != uuid@,
            None => forall|j: int| 0 <= j < keys@.len() ==> (#[trigger] keys@[j]).0@ != uuid@,
        },
{
    let mut i: usize = 0;
    while i < keys.len()
        invariant
            i <= keys@.len(),
            forall|j: int| 0 <= j < i ==> (#[trigger] keys@[j]).0@ != uuid@,
        decreases keys@.len() - i,
    {
        if str_eq(keys[i].0.as_str(), uuid) {
            return Some(i);
        }
        i = i + 1;
    }
    None
}

/// The console key to open by its UUID: the index of the first key `uuid`,
/// or `NoMatchingLines` where no key is `uuid` (nothing is opened then).
pub fn console_key_index(keys: &Vec<(String, Console)>, uuid: &str) -> (r: Result<usize, ConsoleSearchError>)
    ensures
        match r {
            Ok(i) => i < keys@.len() && keys@[i as int].0@ == uuid@ && forall|j: int|
                0 <= j < i ==> (#[trigger] keys@[j]).0@ != uuid@,
            Err(e) => e == ConsoleSearchError::NoMatchingLines && forall|j: int|
                0 <= j < keys@.len() ==> (#[trigger] keys@[j]).0@ != uuid@,
        },
        r is Err <==> forall|j: int| 0 <= j < keys@.len() ==> (#[trigger] keys@[j]).0@ != uuid@,
{
    match find_console_key(keys, uuid) {
        Some(i) => Ok(i),
        None => Err(ConsoleSearchError::NoMatchingLines),
    }
}

/// Where opening a console stands.
#[derive(Debug, Clone, Copy, PartialEq, Eq)]
pub enum OpenPhase {
    /// The console line was searched for the first time.
    Search,
    /// The node was started; the line is searched again until the node is active.
    Booting,
    /// The line was found after booting; the node's state is asked until it is booted.
    WaitBooted,
}

/// What opening a console does next.
#[derive(Debug, Clone, Copy, PartialEq, Eq)]
pub enum OpenStep {
    /// Connect to the console line found.
    Connect,
    /// Start the node, then search for the line again after a while.
    StartAndPoll,
    /// Search for the line again after a while.
    Poll,
    /// Ask for the node's state after a while.
    WaitBooted,
    /// Fail with this error.
    Fail(ConsoleSearchError),
}

/// Decides the next step of opening a console. `searched` is the outcome of
/// the last search for the line (in the `Search` and `Booting` phases),
/// `state` the node's state (in the `WaitBooted` phase). An inactive node is
/// booted where asked (`--boot`), and searched for until it is active; a
/// script (standard output not a terminal) then waits until it is booted.
pub fn open_step(
    boot: bool,
    stdout_tty: bool,
    phase: OpenPhase,
    searched: Result<(), ConsoleSearchError>,
    state: Option<State>,
) -> (r: OpenStep)
    requires
        phase == OpenPhase::WaitBooted ==> state is Some,
    ensures
        r == match phase {
            OpenPhase::Search => match searched {
                Ok(()) => OpenStep::Connect,
                Err(ConsoleSearchError::NodeNotActive) => if boot {
                    OpenStep::StartAndPoll
                } else {
                    OpenStep::Fail(ConsoleSearchError::NodeNotActive)
                },
                Err(e) => OpenStep::Fail(e),
            },
            OpenPhase::Booting => match searched {
                Ok(()) => if stdout_tty {
                    OpenStep::Connect
                } else {
                    OpenStep::WaitBooted
                },
                Err(ConsoleSearchError::NodeNotActive) => OpenStep::Poll,
                Err(e) => OpenStep::Fail(e),
            },
            OpenPhase::WaitBooted => if state == Some(State::Booted) {
                OpenStep::Connect
            } else {
                OpenStep::WaitBooted
            },
        },
{
    match phase {
        OpenPhase::Search => match searched {
            Ok(()) => OpenStep::Connect,
            Err(ConsoleSearchError::NodeNotActive) => if boot {
                OpenStep::StartAndPoll
            } else {
                OpenStep::Fail(ConsoleSearchError::NodeNotActive)
            },
            Err(e) => OpenStep::Fail(e),
        },
        OpenPhase::Booting => match searched {
            Ok(()) => if stdout_tty {
                OpenStep::Connect
            } else {
                OpenStep::WaitBooted
            },
            Err(ConsoleSearchError::NodeNotActive) => OpenStep::Poll,
            Err(e) => OpenStep::Fail(e),
        },
        OpenPhase::WaitBooted => match state {
            Some(State::Booted) => OpenStep::Connect,
            _ => OpenStep::WaitBooted,
        },
    }
}

} // verus!
