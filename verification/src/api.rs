//! Commands of scripted terminal sessions, one per line of input.
//!
//! A line may start with modifiers: `~` sends the command without waiting for
//! a prompt, `!` sends it without a trailing newline, `` `N:text` `` waits for
//! `text` within the last `N` bytes of output, and `%N%` sets a timeout of `N`
//! milliseconds.

use vstd::prelude::*;
use vstd::string::StrSliceExecFns;
use vstd::string::StringSliceAdditionalSpecFns;
use crate::strings::owned;

verus! {

// ---------------------------------------------------------------------------
// Characters and decimal numbers
// ---------------------------------------------------------------------------

/// The characters of `s`.
pub fn chars_of(s: &str) -> (r: Vec<char>)
    ensures
        r@ == s@,
{
    let n = s.unicode_len();
    let mut out: Vec<char> = Vec::new();
    let mut i: usize = 0;
    while i < n
        invariant
            n == s@.len(),
            i <= n,
            out@ == s@.take(i as int),
        decreases n - i,
    {
        let c = s.get_char(i);
        out.push(c);
        proof {
            assert(s@.take(i + 1) =~= s@.take(i as int).push(c));
        }
        i = i + 1;
    }
    proof {
        assert(s@.take(n as int) =~= s@);
    }
    out
}

pub open spec fn is_digit(c: char) -> bool {
    '0' <= c && c <= '9'
}

pub open spec fn digit_value(c: char) -> int {
    (c as int) - ('0' as int)
}

/// The value of a sequence of decimal digits.
pub open spec fn digits_value(d: Seq<char>) -> int
    decreases d.len(),
{
    if d.len() == 0 {
        0
    } else {
        digits_value(d.drop_last()) * 10 + digit_value(d.last())
    }
}

/// `s` without one leading `+`.
pub open spec fn strip_plus(s: Seq<char>) -> Seq<char> {
    if s.len() > 0 && s[0] == '+' {
        s.subrange(1, s.len() as int)
    } else {
        s
    }
}

pub open spec fn all_digits(d: Seq<char>) -> bool {
    forall|i: int| 0 <= i < d.len() ==> is_digit(#[trigger] d[i])
}

/// The unsigned number that `str::parse` reads from `s`: an optional `+`,
/// then one or more decimal digits, at most `max`.
pub open spec fn spec_parse_decimal(s: Seq<char>, max: int) -> Option<int> {
    let d = strip_plus(s);
    if d.len() == 0 || !all_digits(d) || digits_value(d) > max {
        None
    } else {
        Some(digits_value(d))
    }
}

proof fn lemma_digits_value_nonneg(d: Seq<char>)
    requires
        forall|i: int| 0 <= i < d.len() ==> is_digit(#[trigger] d[i]),
    ensures
        digits_value(d) >= 0,
    decreases d.len(),
{
    if d.len() > 0 {
        lemma_digits_value_nonneg(d.drop_last());
    }
}

/// A prefix of a digit string is worth no more than the whole.
proof fn lemma_digits_value_prefix(d: Seq<char>, k: int)
    requires
        0 <= k <= d.len(),
        forall|i: int| 0 <= i < d.len() ==> is_digit(#[trigger] d[i]),
    ensures
        digits_value(d.take(k)) <= digits_value(d),
    decreases d.len() - k,
{
    if k < d.len() {
        lemma_digits_value_prefix(d, k + 1);
        assert(d.take(k + 1).drop_last() =~= d.take(k));
        lemma_digits_value_nonneg(d.take(k));
    } else {
        assert(d.take(k) =~= d);
    }
}

/// Reads the unsigned decimal number held by `cs[a..b]`, if it is at most `max`.
pub fn parse_decimal(cs: &Vec<char>, a: usize, b: usize, max: u64) -> (r: Option<u64>)
    requires
        a <= b <= cs@.len(),
        max >= 9,
    ensures
        match r {
            Some(x) => spec_parse_decimal(cs@.subrange(a as int, b as int), max as int) == Some(x as int),
            None => spec_parse_decimal(cs@.subrange(a as int, b as int), max as int) is None,
        },
{
    let ghost s = cs@.subrange(a as int, b as int);
    let mut start = a;
    if a < b && cs[a] == '+' {
        start = a + 1;
    }
    let ghost d = cs@.subrange(start as int, b as int);
    proof {
        if s.len() > 0 && s[0] == '+' {
            assert(d =~= s.subrange(1, s.len() as int));
        } else {
            assert(d =~= s);
        }
    }
    if start >= b {
        return None;
    }
    let mut acc: u64 = 0;
    let mut i = start;
    while i < b
        invariant
            a <= start <= i <= b <= cs@.len(),
            start < b,
            s == cs@.subrange(a as int, b as int),
            d == cs@.subrange(start as int, b as int),
            d == strip_plus(s),
            max >= 9,
            forall|j: int| 0 <= j < i - start ==> is_digit(#[trigger] d[j]),
            acc == digits_value(d.take(i - start)),
            acc <= max,
        decreases b - i,
    {
        let c = cs[i];
        if !('0' <= c && c <= '9') {
            proof {
                assert(!is_digit(d[i - start]));
                assert(spec_parse_decimal(s, max as int) is None);
            }
            return None;
        }
        let dig: u64 = (c as u32 - '0' as u32) as u64;
        proof {
            assert(d.take(i - start + 1).drop_last() =~= d.take(i - start));
            assert(d.take(i - start + 1).last() == c);
            assert(dig == digit_value(c));
        }
        if acc > (max - dig) / 10 {
            proof {
                assert(acc * 10 + dig > max) by (nonlinear_arith)
                    requires
                        acc > (max - dig) / 10,
                        dig <= 9,
                        max >= 9,
                ;
                assert(forall|j: int| 0 <= j < i - start + 1 ==> is_digit(#[trigger] d[j]));
                if all_digits(d) {
                    lemma_digits_value_prefix(d, i - start + 1);
                    assert(digits_value(d) > max);
                }
                assert(spec_parse_decimal(s, max as int) is None);
            }
            return None;
        }
        proof {
            assert(acc * 10 + dig <= max) by (nonlinear_arith)
                requires
                    acc <= (max - dig) / 10,
                    dig <= 9,
                    max >= 9,
            ;
        }
        acc = acc * 10 + dig;
        i = i + 1;
    }
    proof {
        assert(d.take(d.len() as int) =~= d);
    }
    Some(acc)
}

/// The index of the first `c` in `cs` at or after `i`, or the length of `cs`.
pub open spec fn find_char(cs: Seq<char>, c: char, i: int) -> int
    decreases cs.len() - i,
{
    if i < 0 || i >= cs.len() {
        cs.len() as int
    } else if cs[i] == c {
        i
    } else {
        find_char(cs, c, i + 1)
    }
}

pub proof fn lemma_find_char_bounds(cs: Seq<char>, c: char, i: int)
    requires
        0 <= i <= cs.len(),
    ensures
        i <= find_char(cs, c, i) <= cs.len(),
        find_char(cs, c, i) < cs.len() ==> cs[find_char(cs, c, i)] == c,
    decreases cs.len() - i,
{
    if i < cs.len() && cs[i] != c {
        lemma_find_char_bounds(cs, c, i + 1);
    }
}

pub fn find_char_exec(cs: &Vec<char>, c: char, i: usize) -> (r: usize)
    requires
        i <= cs@.len(),
    ensures
        r == find_char(cs@, c, i as int),
        i <= r <= cs@.len(),
{
    let mut j = i;
    while j < cs.len() && cs[j] != c
        invariant
            i <= j <= cs@.len(),
            find_char(cs@, c, i as int) == find_char(cs@, c, j as int),
        decreases cs@.len() - j,
    {
        j = j + 1;
    }
    j
}

// ---------------------------------------------------------------------------
// Wait conditions
// ---------------------------------------------------------------------------

#[derive(Debug, Clone, Copy, PartialEq, Eq)]
pub enum ScriptWaitCondition<S> {
    Prompt,
    NoWait,
    Static(S),
}

impl<S> ScriptWaitCondition<S> {
    pub fn map<T, F: FnOnce(S) -> T>(self, f: F) -> (r: ScriptWaitCondition<T>)
        requires
            self matches ScriptWaitCondition::Static(s) ==> f.requires((s,)),
        ensures
            self is Prompt ==> r is Prompt,
            self is NoWait ==> r is NoWait,
            self matches ScriptWaitCondition::Static(s) ==> (r matches ScriptWaitCondition::Static(t) && f.ensures((s,), t)),
    {
        match self {
            ScriptWaitCondition::NoWait => ScriptWaitCondition::NoWait,
            ScriptWaitCondition::Prompt => ScriptWaitCondition::Prompt,
            ScriptWaitCondition::Static(s) => ScriptWaitCondition::Static(f(s)),
        }
    }

    /// Converts the text of a `Static` condition with `From`.
    pub fn into<T: From<S>>(self) -> (r: ScriptWaitCondition<T>)
        ensures
            self is Prompt ==> r is Prompt,
            self is NoWait ==> r is NoWait,
            self matches ScriptWaitCondition::Static(s) ==> (r matches ScriptWaitCondition::Static(t)
                && call_ensures(T::from, (s,), t)),
    {
        self.map(T::from)
    }
}

/// The first backtick at or after `i` that does not follow a backslash.
pub open spec fn closing_backtick(cs: Seq<char>, i: int) -> int
    decreases cs.len() - i,
{
    if i < 1 || i >= cs.len() {
        cs.len() as int
    } else if cs[i] == '`' && cs[i - 1] != '\\' {
        i
    } else {
        closing_backtick(cs, i + 1)
    }
}

impl<'a> ScriptWaitCondition<&'a str> {
    /// The wait condition that a line of a script starts with, and the number
    /// of bytes it takes up.
    pub fn from_line(line: &'a str) -> (r: (usize, ScriptWaitCondition<&'a str>))
        requires
            line.spec_bytes().len() <= usize::MAX,
        ensures
            ({
                let cs = line@;
                &&& (cs.len() >= 2 && cs[0] == '\\' && (cs[1] == '~' || cs[1] == '`')) ==> r == (1usize, ScriptWaitCondition::<&'a str>::Prompt)
                &&& !(cs.len() >= 2 && cs[0] == '\\' && (cs[1] == '~' || cs[1] == '`')) && cs.len() >= 1 && cs[0] == '~'
                    ==> r == (1usize, ScriptWaitCondition::<&'a str>::NoWait)
                &&& (cs.len() >= 1 && cs[0] == '`' && closing_backtick(cs, 1) < cs.len()) ==> (r.1 matches ScriptWaitCondition::Static(t)
                    && t@ == cs.subrange(1, closing_backtick(cs, 1)) && r.0 == 2 + t.spec_bytes().len())
                &&& (cs.len() >= 1 && cs[0] == '`' && closing_backtick(cs, 1) >= cs.len()) ==> r == (0usize, ScriptWaitCondition::<&'a str>::Prompt)
                &&& !(cs.len() >= 1 && (cs[0] == '\\' || cs[0] == '~' || cs[0] == '`')) ==> r == (0usize, ScriptWaitCondition::<&'a str>::Prompt)
                &&& (cs.len() >= 1 && cs[0] == '\\' && !(cs.len() >= 2 && (cs[1] == '~' || cs[1] == '`'))) ==> r == (0usize, ScriptWaitCondition::<&'a str>::Prompt)
            }),
    {
        let cs = chars_of(line);
        let n = cs.len();
        if n >= 2 && cs[0] == '\\' && (cs[1] == '~' || cs[1] == '`') {
            (1, ScriptWaitCondition::Prompt)
        } else if n >= 1 && cs[0] == '~' {
            (1, ScriptWaitCondition::NoWait)
        } else if n >= 1 && cs[0] == '`' {
            let mut i: usize = 1;
            while i < n && !(cs[i] == '`' && cs[i - 1] != '\\')
                invariant
                    1 <= i <= n,
                    n == cs@.len(),
                    closing_backtick(cs@, 1) == closing_backtick(cs@, i as int),
                decreases n - i,
            {
                i = i + 1;
            }
            if i < n {
                let l = line.substring_char(1, i);
                proof {
                    lemma_inner_bytes_len(cs@, i as int);
                }
                let len = l.len();
                (2 + len, ScriptWaitCondition::Static(l))
            } else {
                (0, ScriptWaitCondition::Prompt)
            }
        } else {
            (0, ScriptWaitCondition::Prompt)
        }
    }
}

// ---------------------------------------------------------------------------
// Script commands
// ---------------------------------------------------------------------------

#[derive(Debug, Clone, PartialEq, Eq)]
pub enum WaitMode {
    Prompt,
    Immediate,
    /// Wait until the text shows up in the last `n` bytes of output (in all
    /// of it where `n` is 0).
    Expect(usize, String),
}

impl Default for WaitMode {
    fn default() -> (r: WaitMode)
        ensures
            r is Prompt,
    {
        WaitMode::Prompt
    }
}

#[derive(Debug, Clone, PartialEq, Eq)]
pub struct ScriptCommand {
    pub wait_mode: WaitMode,
    pub skip_newline: bool,
    pub timeout: Option<u64>,
    pub command: String,
}

impl Default for ScriptCommand {
    fn default() -> (r: ScriptCommand)
        ensures
            r.wait_mode is Prompt,
            !r.skip_newline,
            r.timeout is None,
            r.command@ == Seq::<char>::empty(),
    {
        ScriptCommand { wait_mode: WaitMode::Prompt, skip_newline: false, timeout: None, command: String::new() }
    }
}

/// The wait mode of a command, as plain values.
pub enum WaitView {
    Prompt,
    Immediate,
    Expect(int, Seq<char>),
}

/// A script command, as plain values.
pub struct CommandView {
    pub wait: WaitView,
    pub skip_newline: bool,
    pub timeout: Option<int>,
    pub command: Seq<char>,
}

impl View for WaitMode {
    type V = WaitView;

    open spec fn view(&self) -> WaitView {
        match self {
            WaitMode::Prompt => WaitView::Prompt,
            WaitMode::Immediate => WaitView::Immediate,
            WaitMode::Expect(n, s) => WaitView::Expect(*n as int, s@),
        }
    }
}

impl View for ScriptCommand {
    type V = CommandView;

    open spec fn view(&self) -> CommandView {
        CommandView {
            wait: self.wait_mode@,
            skip_newline: self.skip_newline,
            timeout: opt_int(self.timeout),
            command: self.command@,
        }
    }
}

/// The wait of a `` `text` `` modifier: the text is waited for, searched
/// in the whole output; `` `n:text` `` searches only the last `n` bytes.
pub open spec fn grave_wait(inner: Seq<char>) -> WaitView {
    let j = find_char(inner, ':', 0);
    if j < inner.len() && spec_parse_decimal(inner.take(j), usize::MAX as int) is Some {
        WaitView::Expect(
            spec_parse_decimal(inner.take(j), usize::MAX as int).unwrap(),
            inner.subrange(j + 1, inner.len() as int),
        )
    } else {
        WaitView::Expect(0, inner)
    }
}

/// Reads the modifiers of a script line from position `p`, having read `st`
/// so far: `~` sends without waiting, `!` sends no newline, `` `text` ``
/// waits for the text, `%ms%` sets a timeout, and a backslash before `~` or
/// `!` makes the rest of the line the command. `None` where a `` ` `` or `%`
/// modifier is not closed, or `%` does not hold a number.
pub open spec fn parse_command(cs: Seq<char>, p: int, st: CommandView) -> Option<CommandView>
    decreases cs.len() - p,
{
    if p < 0 || p > cs.len() {
        None
    } else if p + 1 < cs.len() && cs[p] == '\\' && (cs[p + 1] == '~' || cs[p + 1] == '!') {
        Some(CommandView { command: cs.subrange(p + 1, cs.len() as int), ..st })
    } else if p < cs.len() && cs[p] == '~' {
        parse_command(cs, p + 1, CommandView { wait: WaitView::Immediate, ..st })
    } else if p < cs.len() && cs[p] == '!' {
        parse_command(cs, p + 1, CommandView { skip_newline: true, ..st })
    } else if p < cs.len() && cs[p] == '`' {
        let i = find_char(cs, '`', p + 1);
        if i >= cs.len() || i <= p {
            None
        } else {
            parse_command(cs, i + 1, CommandView { wait: grave_wait(cs.subrange(p + 1, i)), ..st })
        }
    } else if p < cs.len() && cs[p] == '%' {
        let i = find_char(cs, '%', p + 1);
        if i >= cs.len() || i <= p {
            None
        } else {
            match spec_parse_decimal(cs.subrange(p + 1, i), u64::MAX as int) {
                None => None,
                Some(n) => parse_command(cs, i + 1, CommandView { timeout: Some(n), ..st }),
            }
        }
    } else {
        Some(CommandView { command: cs.subrange(p, cs.len() as int), ..st })
    }
}

pub open spec fn opt_int(t: Option<u64>) -> Option<int> {
    match t {
        Some(v) => Some(v as int),
        None => None,
    }
}

/// A command with no modifiers.
pub open spec fn plain_command() -> CommandView {
    CommandView { wait: WaitView::Prompt, skip_newline: false, timeout: None, command: Seq::empty() }
}

/// The text between two delimiters takes two bytes fewer than the whole, at most.
proof fn lemma_inner_bytes_len(cs: Seq<char>, i: int)
    requires
        1 <= i < cs.len(),
    ensures
        vstd::utf8::encode_utf8(cs.subrange(1, i)).len() + 2 <= vstd::utf8::encode_utf8(cs).len(),
{
    let pre = cs.take(1);
    let mid = cs.subrange(1, i);
    let post = cs.subrange(i, cs.len() as int);
    assert(cs =~= pre + (mid + post));
    crate::strings::lemma_encode_concat(pre, mid + post);
    crate::strings::lemma_encode_concat(mid, post);
    crate::strings::lemma_encode_nonempty(pre);
    crate::strings::lemma_encode_nonempty(post);
}

impl ScriptCommand {
    pub fn basic(s: String) -> (r: ScriptCommand)
        ensures
            r@ == (CommandView { command: s@, ..plain_command() }),
    {
        ScriptCommand { command: s, ..Default::default() }
    }

    pub fn immediate(&self) -> (r: bool)
        ensures
            r == (self.wait_mode is Immediate),
    {
        match self.wait_mode {
            WaitMode::Immediate => true,
            _ => false,
        }
    }

    pub fn timeout(&self) -> (r: Option<u64>)
        ensures
            r == self.timeout,
    {
        self.timeout
    }

    pub fn skip_newline(&self) -> (r: bool)
        ensures
            r == self.skip_newline,
    {
        self.skip_newline
    }

    /// Reads a command line of a script. On a malformed modifier, the error
    /// holds the whole line.
    pub fn parse(s: &str) -> (r: Result<ScriptCommand, String>)
        ensures
            match parse_command(s@, 0, plain_command()) {
                Some(v) => r matches Ok(c) && c@ == v,
                None => r matches Err(e) && e@ == s@,
            },
    {
        let cs = chars_of(s);
        let n = cs.len();
        let mut p: usize = 0;
        let mut wait_mode = WaitMode::Prompt;
        let mut skip_newline = false;
        let mut timeout: Option<u64> = None;
        loop
            invariant
                n == cs@.len(),
                cs@ == s@,
                p <= n,
                parse_command(s@, 0, plain_command()) == parse_command(
                    s@,
                    p as int,
                    CommandView {
                        wait: wait_mode@,
                        skip_newline,
                        timeout: opt_int(timeout),
                        command: Seq::empty(),
                    },
                ),
            decreases n - p,
        {
            if p < n && n - p > 1 && cs[p] == '\\' && (cs[p + 1] == '~' || cs[p + 1] == '!') {
                let rest = s.substring_char(p + 1, n);
                return Ok(ScriptCommand { wait_mode, skip_newline, timeout, command: owned(rest) });
            } else if p < n && cs[p] == '~' {
                p = p + 1;
                wait_mode = WaitMode::Immediate;
            } else if p < n && cs[p] == '!' {
                p = p + 1;
                skip_newline = true;
            } else if p < n && cs[p] == '`' {
                let i = find_char_exec(&cs, '`', p + 1);
                if i >= n {
                    return Err(owned(s));
                }
                let j = find_char_exec(&cs, ':', p + 1);
                proof {
                    lemma_find_char_window(cs@, ':', p + 1, i as int, p + 1);
                }
                let ghost st0 = CommandView {
                    wait: wait_mode@,
                    skip_newline,
                    timeout: opt_int(timeout),
                    command: Seq::empty(),
                };
                let ghost p0 = p;
                let ghost inner = cs@.subrange(p + 1, i as int);
                let parsed = if j < i {
                    proof {
                        assert(inner.take(j - (p + 1)) =~= cs@.subrange(p + 1, j as int));
                    }
                    parse_decimal(&cs, p + 1, j, usize::MAX as u64)
                } else {
                    None
                };
                match parsed {
                    Some(v) => {
                        let expect = s.substring_char(j + 1, i);
                        wait_mode = WaitMode::Expect(v as usize, owned(expect));
                        proof {
                            assert(inner.subrange(j - (p0 + 1) + 1, inner.len() as int) =~= cs@.subrange(
                                j + 1,
                                i as int,
                            ));
                        }
                    },
                    None => {
                        let expect = s.substring_char(p + 1, i);
                        wait_mode = WaitMode::Expect(0, owned(expect));
                    },
                }
                p = i + 1;
                proof {
                    assert(cs@[p0 as int] == '`');
                    assert(find_char(cs@, '`', p0 + 1) == i);
                    assert(wait_mode@ == grave_wait(inner));
                    assert(parse_command(s@, p0 as int, st0) == parse_command(
                        s@,
                        p as int,
                        CommandView { wait: wait_mode@, ..st0 },
                    ));
                }
            } else if p < n && cs[p] == '%' {
                let i = find_char_exec(&cs, '%', p + 1);
                if i >= n {
                    return Err(owned(s));
                }
                match parse_decimal(&cs, p + 1, i, u64::MAX) {
                    None => {
                        return Err(owned(s));
                    },
                    Some(num) => {
                        timeout = Some(num);
                        p = i + 1;
                    },
                }
            } else {
                let rest = s.substring_char(p, n);
                return Ok(ScriptCommand { wait_mode, skip_newline, timeout, command: owned(rest) });
            }
        }
    }
}

/// Searching `cs[a..b]` from `k - a` finds what searching `cs` from `k` finds,
/// where that lies before `b`.
proof fn lemma_find_char_window(cs: Seq<char>, c: char, a: int, b: int, k: int)
    requires
        0 <= a <= k <= b <= cs.len(),
    ensures
        ({
            let inner = cs.subrange(a, b);
            let j = find_char(cs, c, k);
            &&& (j < b ==> find_char(inner, c, k - a) == j - a)
            &&& (j >= b ==> find_char(inner, c, k - a) == inner.len())
        }),
    decreases b - k,
{
    lemma_find_char_bounds(cs, c, k);
    if k < b && cs[k] != c {
        lemma_find_char_window(cs, c, a, b, k + 1);
    }
}

impl std::str::FromStr for ScriptCommand {
    type Err = String;

    fn from_str(s: &str) -> (r: Result<ScriptCommand, String>)
        ensures
            match parse_command(s@, 0, plain_command()) {
                Some(v) => r matches Ok(c) && c@ == v,
                None => r matches Err(e) && e@ == s@,
            },
    {
        ScriptCommand::parse(s)
    }
}

} // verus!
