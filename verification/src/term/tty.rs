//! The decisions of an interactive console session: what a key press sends,
//! and what a console update shows.

use vstd::prelude::*;
use vstd::utf8::{decode_utf8, encode_utf8, valid_utf8};
use crate::term::buffer::{copy_bytes, last_occurrence, occurs_at, rfind_slice};
use crate::term::common::{lemma_trim_bounds, trim_end, trim_end_exec, ConsoleUpdate};
use crate::api::chars_of;
use crate::term::script::contains_bytes;
use crate::strings::{lemma_encode_concat, push_char, seq_ends_with, str_eq, utf8_str};
use vstd::string::StringExecFns;

verus! {

/// A key, as the terminal reports it.
#[derive(Debug, Clone, Copy, PartialEq, Eq)]
pub enum KeyCode {
    Backspace,
    Enter,
    Left,
    Right,
    Up,
    Down,
    Home,
    End,
    PageUp,
    PageDown,
    Tab,
    BackTab,
    Delete,
    Insert,
    F(u8),
    Char(char),
    Null,
    Esc,
    /// Any other key (lock keys, media keys, modifier keys, ...).
    Other,
}

/// The modifier bits of a key event.
pub const MOD_NONE: u8 = 0;
pub const MOD_SHIFT: u8 = 1;
pub const MOD_CONTROL: u8 = 2;
pub const MOD_ALT: u8 = 4;

/// A key press and the modifiers held with it (`MOD_*` bits).
#[derive(Debug, Clone, Copy, PartialEq, Eq)]
pub struct KeyEvent {
    pub code: KeyCode,
    pub modifiers: u8,
}

/// Why a key event has no character sequence.
#[derive(Debug, Clone, Copy, PartialEq, Eq)]
pub enum KeyError {
    /// A function key above F20.
    InvalidFunctionKey(u8),
    /// Control held with a character outside ASCII.
    NonAsciiControl(char),
    /// Control held with an ASCII character that has no control character
    /// (the character is given upper-cased).
    NoControlCharacter(char),
    UnexpectedCtrl(KeyCode),
    UnexpectedAlt(KeyCode),
    UnexpectedShift(KeyCode),
    Unhandled(KeyEvent),
}

/// `ascii::caret_decode`: the control character that `^c` stands for.
#[verifier::external_body]
fn caret_decode(b: u8) -> (r: Option<u8>)
    ensures
        r == (if 63 <= b && b <= 95 { Some(b ^ 64u8) } else { None::<u8> }),
{
    match ascii::caret_decode(b) {
        Some(decoded) => Some(decoded.as_byte()),
        None => None,
    }
}

pub open spec fn esc(s: Seq<char>) -> Seq<char> {
    seq!['\x1B'] + s
}

pub open spec fn ascii_upper(b: u8) -> u8 {
    if 97 <= b && b <= 122 { (b - 32) as u8 } else { b }
}

/// `[` then the decimal digits of `v` then `~`, for a two-digit `v`.
pub open spec fn bracket_code(v: int) -> Seq<char> {
    seq!['[', (48 + v / 10) as char, (48 + v % 10) as char, '~']
}

/// The escape sequence or character that a key event sends to the console.
pub open spec fn spec_event_code(e: KeyEvent) -> Result<Seq<char>, KeyError> {
    if e.modifiers == MOD_NONE {
        match e.code {
            KeyCode::Char(ch) => Ok(seq![ch]),
            KeyCode::Up => Ok(esc(seq!['[', 'A'])),
            KeyCode::Down => Ok(esc(seq!['[', 'B'])),
            KeyCode::Right => Ok(esc(seq!['[', 'C'])),
            KeyCode::Left => Ok(esc(seq!['[', 'D'])),
            KeyCode::Tab => Ok(seq!['\t']),
            KeyCode::Enter => Ok(seq!['\r']),
            KeyCode::Home => Ok(seq!['\x01']),
            KeyCode::End => Ok(seq!['\x05']),
            KeyCode::Delete => Ok(seq!['\x04']),
            KeyCode::Esc => Ok(seq!['\x1B']),
            KeyCode::Backspace => Ok(seq!['\x08']),
            KeyCode::Insert => Ok(esc(seq!['[', '2', '~'])),
            KeyCode::PageUp => Ok(esc(seq!['[', '5', '~'])),
            KeyCode::PageDown => Ok(esc(seq!['[', '6', '~'])),
            KeyCode::BackTab => Ok(esc(seq!['O', 'P', '\t'])),
            KeyCode::Null => Ok(seq!['\0']),
            KeyCode::F(n) => if n == 1 {
                Ok(seq!['\r', '\n'])
            } else if n == 2 {
                Ok(esc(seq!['O', 'Q']))
            } else if n == 3 {
                Ok(esc(seq!['O', 'R']))
            } else if n == 4 {
                Ok(esc(seq!['O', 'S']))
            } else if n == 5 {
                Ok(esc(seq!['[', '1', '5', '~']))
            } else if 6 <= n && n <= 10 {
                Ok(bracket_code(n + 11))
            } else if 11 <= n && n <= 14 {
                Ok(bracket_code(n + 12))
            } else if 15 <= n && n <= 16 {
                Ok(bracket_code(n + 13))
            } else if 17 <= n && n <= 20 {
                Ok(bracket_code(n + 14))
            } else {
                Err(KeyError::InvalidFunctionKey(n))
            },
            KeyCode::Other => Err(KeyError::Unhandled(e)),
        }
    } else if e.modifiers == MOD_CONTROL {
        match e.code {
            KeyCode::Char('p') => Ok(esc(seq!['[', 'A'])),
            KeyCode::Char('n') => Ok(esc(seq!['[', 'B'])),
            KeyCode::Char('f') => Ok(esc(seq!['[', 'C'])),
            KeyCode::Char('b') => Ok(esc(seq!['[', 'D'])),
            KeyCode::Left => Ok(esc(seq!['b'])),
            KeyCode::Right => Ok(esc(seq!['f'])),
            KeyCode::Char(ch) => if (ch as u32) >= 128 {
                Err(KeyError::NonAsciiControl(ch))
            } else {
                let up = ascii_upper(ch as u8);
                if 63 <= up && up <= 95 {
                    Ok(seq![(up ^ 64u8) as char])
                } else {
                    Err(KeyError::NoControlCharacter(up as char))
                }
            },
            c => Err(KeyError::UnexpectedCtrl(c)),
        }
    } else if e.modifiers == MOD_ALT {
        match e.code {
            KeyCode::Char('6') => Ok(seq!['\x1E', 'x']),
            c => Err(KeyError::UnexpectedAlt(c)),
        }
    } else if e.modifiers == MOD_SHIFT {
        match e.code {
            KeyCode::Char(ch) => Ok(seq![ch]),
            c => Err(KeyError::UnexpectedShift(c)),
        }
    } else {
        Err(KeyError::Unhandled(e))
    }
}

/// A key pressed with no modifier.
pub open spec fn pressed(code: KeyCode) -> KeyEvent {
    KeyEvent { code, modifiers: MOD_NONE }
}

/// A character key pressed with Control held.
pub open spec fn ctrl_chord(ch: char) -> KeyEvent {
    KeyEvent { code: KeyCode::Char(ch), modifiers: MOD_CONTROL }
}

/// Control with a letter sends the letter's place in the alphabet (Ctrl-A
/// is 1, Ctrl-E is 5, up to Ctrl-Z, 26), whatever its case (lower-case
/// p, n, f and b move the cursor instead, as the arrows do); and each
/// editing key sends what its readline chord does: Home is Ctrl-A (line
/// start), End is Ctrl-E (line end), Delete is Ctrl-D, Backspace is Ctrl-H,
/// Tab is Ctrl-I, Enter is Ctrl-M, Esc is Ctrl-[, Null is Ctrl-@, and the
/// arrows are Ctrl-P, Ctrl-N, Ctrl-F and Ctrl-B (previous and next line,
/// forward and back).
pub proof fn law_keys_are_chords(ch: char)
    ensures
        ('a' <= ch && ch <= 'z' && ch != 'p' && ch != 'n' && ch != 'f' && ch != 'b') ==> spec_event_code(ctrl_chord(ch)) == Ok::<Seq<char>, KeyError>(
            seq![((ch as u32) - 96) as char],
        ),
        ('A' <= ch && ch <= 'Z') ==> spec_event_code(ctrl_chord(ch)) == Ok::<Seq<char>, KeyError>(
            seq![((ch as u32) - 64) as char],
        ),
        spec_event_code(pressed(KeyCode::Home)) == spec_event_code(ctrl_chord('a')),
        spec_event_code(pressed(KeyCode::End)) == spec_event_code(ctrl_chord('e')),
        spec_event_code(pressed(KeyCode::Delete)) == spec_event_code(ctrl_chord('d')),
        spec_event_code(pressed(KeyCode::Backspace)) == spec_event_code(ctrl_chord('h')),
        spec_event_code(pressed(KeyCode::Tab)) == spec_event_code(ctrl_chord('i')),
        spec_event_code(pressed(KeyCode::Enter)) == spec_event_code(ctrl_chord('m')),
        spec_event_code(pressed(KeyCode::Esc)) == spec_event_code(ctrl_chord('[')),
        spec_event_code(pressed(KeyCode::Null)) == spec_event_code(ctrl_chord('@')),
        spec_event_code(pressed(KeyCode::Up)) == spec_event_code(ctrl_chord('p')),
        spec_event_code(pressed(KeyCode::Down)) == spec_event_code(ctrl_chord('n')),
        spec_event_code(pressed(KeyCode::Right)) == spec_event_code(ctrl_chord('f')),
        spec_event_code(pressed(KeyCode::Left)) == spec_event_code(ctrl_chord('b')),
{
    assert(forall|x: u8| 65 <= x && x <= 90 ==> #[trigger] (x ^ 64u8) == x - 64) by (bit_vector);
    assert(forall|x: u8| x == 91 || x == 64 ==> #[trigger] (x ^ 64u8) == x - 64) by (bit_vector);
    let c = ch as u8;
    if 'a' <= ch && ch <= 'z' {
        assert(ascii_upper(c) == c - 32);
        assert((ascii_upper(c) ^ 64u8) == c - 96);
    }
    if 'A' <= ch && ch <= 'Z' {
        assert(ascii_upper(c) == c);
        assert((ascii_upper(c) ^ 64u8) == c - 64);
    }
    assert((ascii_upper(97u8) ^ 64u8) == 1u8);
    assert((ascii_upper(101u8) ^ 64u8) == 5u8);
    assert((ascii_upper(100u8) ^ 64u8) == 4u8);
    assert((ascii_upper(104u8) ^ 64u8) == 8u8);
    assert((ascii_upper(105u8) ^ 64u8) == 9u8);
    assert((ascii_upper(109u8) ^ 64u8) == 13u8);
    assert((ascii_upper(91u8) ^ 64u8) == 27u8);
    assert((ascii_upper(64u8) ^ 64u8) == 0u8);
}

fn text(s: &str) -> (r: String)
    ensures
        r@ == s@,
{
    crate::strings::owned(s)
}

fn one_char(c: char) -> (r: String)
    ensures
        r@ == seq![c],
{
    let mut s = String::new();
    push_char(&mut s, c);
    s
}

fn esc_text(s: &str) -> (r: String)
    ensures
        r@ == esc(s@),
{
    let mut out = String::new();
    push_char(&mut out, '\x1B');
    out.append(s);
    proof {
        assert(out@ =~= esc(s@));
    }
    out
}

fn bracket_text(v: u8) -> (r: String)
    requires
        10 <= v <= 99,
    ensures
        r@ == bracket_code(v as int),
{
    let mut out = String::new();
    push_char(&mut out, '[');
    push_char(&mut out, ((48 + v / 10) as u8) as char);
    push_char(&mut out, ((48 + v % 10) as u8) as char);
    push_char(&mut out, '~');
    proof {
        assert(out@ =~= bracket_code(v as int));
    }
    out
}

/// Maps keyboard key events to a character sequence to send to a terminal.
pub fn event_to_code(event: KeyEvent) -> (r: Result<String, KeyError>)
    ensures
        match spec_event_code(event) {
            Ok(s) => r matches Ok(t) && t@ == s,
            Err(e) => r == Err::<String, KeyError>(e),
        },
{
    if event.modifiers == MOD_NONE {
        match event.code {
            KeyCode::Char(ch) => Ok(one_char(ch)),
            KeyCode::Up => {
                proof { reveal_strlit("[A"); }
                Ok(esc_text("[A"))
            },
            KeyCode::Down => {
                proof { reveal_strlit("[B"); }
                Ok(esc_text("[B"))
            },
            KeyCode::Right => {
                proof { reveal_strlit("[C"); }
                Ok(esc_text("[C"))
            },
            KeyCode::Left => {
                proof { reveal_strlit("[D"); }
                Ok(esc_text("[D"))
            },
            KeyCode::Tab => Ok(one_char('\t')),
            KeyCode::Enter => Ok(one_char('\r')),
            KeyCode::Home => Ok(one_char('\x01')),
            KeyCode::End => Ok(one_char('\x05')),
            KeyCode::Delete => Ok(one_char('\x04')),
            KeyCode::Esc => Ok(one_char('\x1B')),
            KeyCode::Backspace => Ok(one_char('\x08')),
            KeyCode::Insert => {
                proof { reveal_strlit("[2~"); }
                Ok(esc_text("[2~"))
            },
            KeyCode::PageUp => {
                proof { reveal_strlit("[5~"); }
                Ok(esc_text("[5~"))
            },
            KeyCode::PageDown => {
                proof { reveal_strlit("[6~"); }
                Ok(esc_text("[6~"))
            },
            KeyCode::BackTab => {
                proof { reveal_strlit("OP\x09"); }
                Ok(esc_text("OP\x09"))
            },
            KeyCode::Null => Ok(one_char('\0')),
            KeyCode::F(n) => if n == 1 {
                proof { reveal_strlit("\r\n"); }
                Ok(text("\r\n"))
            } else if n == 2 {
                proof { reveal_strlit("OQ"); }
                Ok(esc_text("OQ"))
            } else if n == 3 {
                proof { reveal_strlit("OR"); }
                Ok(esc_text("OR"))
            } else if n == 4 {
                proof { reveal_strlit("OS"); }
                Ok(esc_text("OS"))
            } else if n == 5 {
                proof { reveal_strlit("[15~"); }
                Ok(esc_text("[15~"))
            } else if 6 <= n && n <= 10 {
                Ok(bracket_text(n + 11))
            } else if 11 <= n && n <= 14 {
                Ok(bracket_text(n + 12))
            } else if 15 <= n && n <= 16 {
                Ok(bracket_text(n + 13))
            } else if 17 <= n && n <= 20 {
                Ok(bracket_text(n + 14))
            } else {
                Err(KeyError::InvalidFunctionKey(n))
            },
            KeyCode::Other => Err(KeyError::Unhandled(event)),
        }
    } else if event.modifiers == MOD_CONTROL {
        match event.code {
            KeyCode::Char('p') => {
                proof { reveal_strlit("[A"); }
                Ok(esc_text("[A"))
            },
            KeyCode::Char('n') => {
                proof { reveal_strlit("[B"); }
                Ok(esc_text("[B"))
            },
            KeyCode::Char('f') => {
                proof { reveal_strlit("[C"); }
                Ok(esc_text("[C"))
            },
            KeyCode::Char('b') => {
                proof { reveal_strlit("[D"); }
                Ok(esc_text("[D"))
            },
            KeyCode::Left => {
                proof { reveal_strlit("b"); }
                Ok(esc_text("b"))
            },
            KeyCode::Right => {
                proof { reveal_strlit("f"); }
                Ok(esc_text("f"))
            },
            KeyCode::Char(ch) => {
                if (ch as u32) >= 128 {
                    Err(KeyError::NonAsciiControl(ch))
                } else {
                    let b = ch as u8;
                    let up = if 97 <= b && b <= 122 { b - 32 } else { b };
                    match caret_decode(up) {
                        None => Err(KeyError::NoControlCharacter(up as char)),
                        Some(x) => Ok(one_char(x as char)),
                    }
                }
            },
            c => Err(KeyError::UnexpectedCtrl(c)),
        }
    } else if event.modifiers == MOD_ALT {
        match event.code {
            KeyCode::Char('6') => {
                proof { reveal_strlit("\x1Ex"); }
                Ok(text("\x1Ex"))
            },
            c => Err(KeyError::UnexpectedAlt(c)),
        }
    } else if event.modifiers == MOD_SHIFT {
        match event.code {
            KeyCode::Char(ch) => Ok(one_char(ch)),
            c => Err(KeyError::UnexpectedShift(c)),
        }
    } else {
        Err(KeyError::Unhandled(event))
    }
}

/// What a key press does in an interactive session.
#[derive(Debug, Clone, PartialEq, Eq)]
pub enum InputAction {
    /// Ctrl-D: a newline is shown and the console connection is closed.
    Close,
    /// This text is sent to the console.
    Send(String),
    /// The key has no sequence, for this reason; nothing is sent.
    Ignore(KeyError),
}

pub open spec fn is_ctrl_d(e: KeyEvent) -> bool {
    e.modifiers == MOD_CONTROL && e.code == KeyCode::Char('d')
}

/// Decides what a key press does: Ctrl-D ends the session, any other key
/// sends its sequence, and a key without one is ignored.
pub fn input_action(event: KeyEvent) -> (r: InputAction)
    ensures
        is_ctrl_d(event) ==> r == InputAction::Close,
        !is_ctrl_d(event) ==> match spec_event_code(event) {
            Ok(s) => r matches InputAction::Send(t) && t@ == s,
            Err(e) => r == InputAction::Ignore(e),
        },
{
    let ctrl_d = event.modifiers == MOD_CONTROL && match event.code {
        KeyCode::Char(c) => c == 'd',
        _ => false,
    };
    if ctrl_d {
        InputAction::Close
    } else {
        match event_to_code(event) {
            Ok(t) => InputAction::Send(t),
            Err(e) => InputAction::Ignore(e),
        }
    }
}

/// What an interactive session shows for a console update: the bytes to
/// write, then the prompt to write in red where it is coloured, and the
/// terminal title to set.
pub struct TtyOutput {
    pub data: Vec<u8>,
    pub prompt: Option<Vec<u8>>,
    pub title: Option<String>,
}

/// The characters of `cs` before its trailing white space.
pub open spec fn trimmed_end(cs: Seq<char>) -> Seq<char> {
    cs.take(trim_end(cs, 0, cs.len() as int))
}

/// What colouring the prompt `p` of shown data `d` takes for granted, `w`
/// being the window of output in which `p` was found at the end: the window
/// ends with the data, and where both are UTF-8, the window ends with the
/// prompt (trailing white space aside), and data that does not hold the
/// prompt ends a part of it.
pub open spec fn prompt_colorable(d: Seq<u8>, w: Seq<u8>, p: Seq<char>) -> bool {
    &&& seq_ends_with(w, d)
    &&& (valid_utf8(d) && valid_utf8(w)) ==> {
        &&& seq_ends_with(trimmed_end(decode_utf8(w)), p)
        &&& (!contains_bytes(d, encode_utf8(p)) ==> seq_ends_with(p, trimmed_end(decode_utf8(d))))
    }
}

/// How shown data `d` is split to colour its prompt `p`: where `d` holds the
/// prompt, `d` up to the prompt's last occurrence stays plain and the rest is
/// coloured; else a carriage return follows `d`, and the window `w` from the
/// prompt's last occurrence on is coloured (the whole prompt is reprinted).
/// Where `d` or `w` is not UTF-8, nothing is coloured.
pub open spec fn colored_split(d: Seq<u8>, w: Seq<u8>, p: Seq<char>, plain: Seq<u8>, red: Option<Vec<u8>>) -> bool {
    if !(valid_utf8(d) && valid_utf8(w)) {
        plain == d && red is None
    } else if contains_bytes(d, encode_utf8(p)) {
        exists|i: int|
            #![trigger last_occurrence(d, encode_utf8(p), i)]
            last_occurrence(d, encode_utf8(p), i) && plain == d.take(i) && (red matches Some(v) && v@ == d.skip(i))
    } else {
        &&& plain == d.push(13u8)
        &&& exists|j: int|
            #![trigger last_occurrence(w, encode_utf8(p), j)]
            last_occurrence(w, encode_utf8(p), j) && (red matches Some(v) && v@ == w.skip(j))
    }
}

/// Colouring a prompt that the shown data holds changes no text: the plain
/// part followed by the coloured part is the shown data.
pub proof fn law_coloring_keeps_text(d: Seq<u8>, w: Seq<u8>, p: Seq<char>, plain: Seq<u8>, red: Option<Vec<u8>>)
    requires
        colored_split(d, w, p, plain, red),
        valid_utf8(d),
        valid_utf8(w),
        contains_bytes(d, encode_utf8(p)),
    ensures
        red matches Some(v) && plain + v@ == d,
{
    let i = choose|i: int|
        #![trigger last_occurrence(d, encode_utf8(p), i)]
        last_occurrence(d, encode_utf8(p), i) && plain == d.take(i) && (red matches Some(v) && v@ == d.skip(i));
    assert(d.take(i) + d.skip(i) =~= d);
}

/// A text that ends a valid UTF-8 window, trailing white space aside, occurs
/// in its bytes.
proof fn lemma_suffix_occurs(w: Seq<u8>, p: Seq<char>)
    requires
        valid_utf8(w),
        seq_ends_with(trimmed_end(decode_utf8(w)), p),
    ensures
        exists|j: int| occurs_at(w, encode_utf8(p), j),
{
    let wc = decode_utf8(w);
    vstd::utf8::decode_utf8_encode_utf8(w);
    lemma_trim_bounds(wc, 0, wc.len() as int);
    let e = trim_end(wc, 0, wc.len() as int);
    let s = e - p.len();
    let pre = wc.take(s);
    let post = wc.skip(e);
    assert(wc.take(e).subrange(s, e) =~= wc.subrange(s, e));
    assert(wc =~= pre + (p + post));
    lemma_encode_concat(pre, p + post);
    lemma_encode_concat(p, post);
    let k = encode_utf8(pre).len() as int;
    assert(w.subrange(k, k + encode_utf8(p).len()) =~= encode_utf8(p));
    assert(occurs_at(w, encode_utf8(p), k));
}

fn bytes_range(s: &[u8], a: usize, b: usize) -> (r: Vec<u8>)
    requires
        a <= b <= s@.len(),
    ensures
        r@ == s@.subrange(a as int, b as int),
{
    copy_bytes(vstd::slice::slice_subrange(s, a, b))
}

/// Whether `b` ends `a`.
fn bytes_end_with(a: &[u8], b: &[u8]) -> (r: bool)
    ensures
        r == seq_ends_with(a@, b@),
{
    let n = a.len();
    let m = b.len();
    if m > n {
        return false;
    }
    let mut k: usize = 0;
    while k < m
        invariant
            n == a@.len(),
            m == b@.len(),
            m <= n,
            k <= m,
            forall|i: int| 0 <= i < k ==> a@[n - m + i] == b@[i],
        decreases m - k,
    {
        if a[n - m + k] != b[k] {
            proof {
                assert(a@.subrange(n - m, n as int)[k as int] != b@[k as int]);
            }
            return false;
        }
        k = k + 1;
    }
    proof {
        assert(a@.subrange(n - m, n as int) =~= b@);
    }
    true
}

/// Whether `b` ends the characters of `a` before its trailing white space.
fn trimmed_ends_with(a: &Vec<char>, b: &Vec<char>) -> (r: bool)
    ensures
        r == seq_ends_with(trimmed_end(a@), b@),
{
    let e = trim_end_exec(a, 0, a.len());
    let m = b.len();
    if m > e {
        return false;
    }
    let ghost t = trimmed_end(a@);
    let mut k: usize = 0;
    while k < m
        invariant
            e == trim_end(a@, 0, a@.len() as int),
            e <= a@.len(),
            t == a@.take(e as int),
            m == b@.len(),
            m <= e,
            k <= m,
            forall|i: int| 0 <= i < k ==> t[e - m + i] == b@[i],
        decreases m - k,
    {
        if a[e - m + k] != b[k] {
            proof {
                assert(t.subrange(e - m, e as int)[k as int] != b@[k as int]);
            }
            return false;
        }
        k = k + 1;
    }
    proof {
        assert(t.subrange(e - m, e as int) =~= b@);
    }
    true
}

/// Whether the characters of `b` before its trailing white space end `a`.
fn ends_with_trimmed(a: &Vec<char>, b: &Vec<char>) -> (r: bool)
    ensures
        r == seq_ends_with(a@, trimmed_end(b@)),
{
    let e = trim_end_exec(b, 0, b.len());
    let n = a.len();
    if e > n {
        return false;
    }
    let ghost t = trimmed_end(b@);
    let mut k: usize = 0;
    while k < e
        invariant
            e == trim_end(b@, 0, b@.len() as int),
            e <= b@.len(),
            t == b@.take(e as int),
            n == a@.len(),
            e <= n,
            k <= e,
            forall|i: int| 0 <= i < k ==> a@[n - e + i] == t[i],
        decreases e - k,
    {
        if a[n - e + k] != b[k] {
            proof {
                assert(a@.subrange(n - e, n as int)[k as int] != t[k as int]);
            }
            return false;
        }
        k = k + 1;
    }
    proof {
        assert(a@.subrange(n - e, n as int) =~= t);
    }
    true
}

/// Whether an update's prompt can be coloured as `handle_update` does it:
/// exactly the condition that `handle_update` requires.
pub fn can_color_prompt(is_tty: bool, colorize: bool, update: &ConsoleUpdate, window: &[u8]) -> (r: bool)
    ensures
        r == (colorize && (update.last_prompt matches Some((p, true))) ==> prompt_colorable(
            shown_data(is_tty, *update),
            window@,
            update.last_prompt.unwrap().0@,
        )),
{
    let p: &str = match &update.last_prompt {
        Some((p, true)) => if colorize {
            p.as_str()
        } else {
            return true;
        },
        _ => return true,
    };
    let chunk = copy_bytes(update.last_chunk.as_slice());
    let d = if is_tty && update.was_first {
        skip_leading_crlf(chunk)
    } else {
        chunk
    };
    if !bytes_end_with(window, d.as_slice()) {
        return false;
    }
    let (ds, ws) = match (utf8_str(d.as_slice()), utf8_str(window)) {
        (Some(ds), Some(ws)) => (ds, ws),
        _ => return true,
    };
    proof {
        crate::strings::lemma_utf8_text(ds, d@);
        crate::strings::lemma_utf8_text(ws, window@);
    }
    let dc = chars_of(ds);
    let wc = chars_of(ws);
    let pc = chars_of(p);
    if !trimmed_ends_with(&wc, &pc) {
        return false;
    }
    let found = rfind_slice(d.as_slice(), p.as_bytes());
    proof {
        if let Some(i) = found {
            assert(occurs_at(d@, encode_utf8(p@), i as int));
        }
    }
    found.is_some() || ends_with_trimmed(&pc, &dc)
}

/// Splits shown data for colouring its prompt (see `colored_split`).
fn color_split(d: Vec<u8>, w: &[u8], p: &str) -> (r: (Vec<u8>, Option<Vec<u8>>))
    requires
        prompt_colorable(d@, w@, p@),
    ensures
        colored_split(d@, w@, p@, r.0@, r.1),
{
    let both = match (utf8_str(d.as_slice()), utf8_str(w)) {
        (Some(_), Some(_)) => true,
        _ => false,
    };
    if !both {
        return (d, None);
    }
    let pb = p.as_bytes();
    match rfind_slice(d.as_slice(), pb) {
        Some(i) => {
            let plain = bytes_range(d.as_slice(), 0, i);
            let red = bytes_range(d.as_slice(), i, d.len());
            proof {
                assert(last_occurrence(d@, encode_utf8(p@), i as int));
            }
            (plain, Some(red))
        },
        None => {
            proof {
                lemma_suffix_occurs(w@, p@);
            }
            match rfind_slice(w, pb) {
                Some(j) => {
                    let red = bytes_range(w, j, w.len());
                    let mut plain = d;
                    plain.push(13u8);
                    proof {
                        assert(last_occurrence(w@, encode_utf8(p@), j as int));
                    }
                    (plain, Some(red))
                },
                None => (d, None),
            }
        },
    }
}

/// The data that an update shows: on a terminal, the first update without
/// the `\r\n` pairs that it starts with.
pub open spec fn shown_data(is_tty: bool, update: ConsoleUpdate) -> Seq<u8> {
    if is_tty && update.was_first {
        strip_leading_crlf(update.last_chunk@)
    } else {
        update.last_chunk@
    }
}

/// `s` without the `\r\n` pairs that it starts with.
pub open spec fn strip_leading_crlf(s: Seq<u8>) -> Seq<u8>
    decreases s.len(),
{
    if s.len() >= 2 && s[0] == 13 && s[1] == 10 {
        strip_leading_crlf(s.subrange(2, s.len() as int))
    } else {
        s
    }
}

/// Drops every `\r\n` pair at the start of `data`.
fn skip_leading_crlf(data: Vec<u8>) -> (r: Vec<u8>)
    ensures
        r@ == strip_leading_crlf(data@),
{
    let n = data.len();
    let mut i: usize = 0;
    proof {
        assert(data@.subrange(0, n as int) =~= data@);
    }
    while n - i >= 2 && data[i] == 13 && data[i + 1] == 10
        invariant
            i <= n == data@.len(),
            strip_leading_crlf(data@.subrange(i as int, n as int)) == strip_leading_crlf(data@),
        decreases n - i,
    {
        proof {
            let rest = data@.subrange(i as int, n as int);
            assert(rest.subrange(2, rest.len() as int) =~= data@.subrange(i + 2, n as int));
        }
        i = i + 2;
    }
    let mut out: Vec<u8> = Vec::new();
    let start = i;
    while i < n
        invariant
            start <= i <= n == data@.len(),
            out@ == data@.subrange(start as int, i as int),
        decreases n - i,
    {
        out.push(data[i]);
        proof {
            assert(data@.subrange(start as int, i + 1) =~= data@.subrange(start as int, i as int).push(
                data@[i as int],
            ));
        }
        i = i + 1;
    }
    out
}

/// The state of an interactive session's output.
pub struct UserMeta {
    /// The title last set, so that the same one is not set again.
    pub last_set_prompt: String,
    /// A timeout after which a newline is sent if no prompt was found on
    /// bringing up the console.
    pub auto_prompt_ms: u64,
}

impl UserMeta {
    /// Decides what an update shows, `window` being the output that the
    /// update's prompt was found in. On a terminal, the first update loses the
    /// `\r\n` pairs it starts with (which some consoles send on start); where
    /// colour is on and the output ends with the prompt, the prompt is shown
    /// in red; and a new prompt becomes the terminal's title.
    pub fn handle_update(&mut self, is_tty: bool, colorize: bool, update: ConsoleUpdate, window: &[u8]) -> (r: TtyOutput)
        requires
            colorize && (update.last_prompt matches Some((p, true))) ==> prompt_colorable(
                shown_data(is_tty, update),
                window@,
                update.last_prompt.unwrap().0@,
            ),
        ensures
            final(self).auto_prompt_ms == old(self).auto_prompt_ms,
            if colorize && (update.last_prompt matches Some((p, true))) {
                colored_split(shown_data(is_tty, update), window@, update.last_prompt.unwrap().0@, r.data@, r.prompt)
            } else {
                r.data@ == shown_data(is_tty, update) && r.prompt is None
            },
            match update.last_prompt {
                Some((p, _)) => if is_tty && p@ != old(self).last_set_prompt@ {
                    r.title matches Some(t) && t@ == p@ && final(self).last_set_prompt@ == p@
                } else {
                    r.title is None && final(self).last_set_prompt@ == old(self).last_set_prompt@
                },
                None => r.title is None && final(self).last_set_prompt@ == old(self).last_set_prompt@,
            },
    {
        let ConsoleUpdate { last_chunk, last_prompt, was_first } = update;
        let data = if is_tty && was_first {
            skip_leading_crlf(last_chunk)
        } else {
            last_chunk
        };
        let (data, prompt) = match &last_prompt {
            Some((p, true)) => if colorize {
                color_split(data, window, p.as_str())
            } else {
                (data, None)
            },
            _ => (data, None),
        };
        let title = match last_prompt {
            Some((prompt, _)) => {
                if is_tty && !str_eq(self.last_set_prompt.as_str(), prompt.as_str()) {
                    self.last_set_prompt = prompt.clone();
                    Some(prompt)
                } else {
                    None
                }
            },
            None => None,
        };
        TtyOutput { data, prompt, title }
    }
}

/// What happens while an interactive session waits for its first output.
#[derive(Debug, Clone, Copy, PartialEq, Eq)]
pub enum PromptEvent {
    /// The wait for a prompt ran out.
    Elapsed,
    /// Output came from the console.
    Output,
}

/// What is sent when an interactive session starts: a form feed, which
/// reprints the current line and so brings up the prompt.
pub fn reprint_line() -> (r: String)
    ensures
        r@ == seq!['\x0C'],
{
    let s = "\x0C";
    proof {
        reveal_strlit("\x0C");
    }
    crate::strings::owned(s)
}

/// Whether the session has its prompt after an event, and what is sent: the
/// first time the wait runs out with no output yet, a carriage return; the
/// wait is not armed again.
pub fn prompt_step(initialized: bool, ev: PromptEvent) -> (r: (bool, Option<String>))
    ensures
        r.0,
        (ev == PromptEvent::Elapsed && !initialized) ==> (r.1 matches Some(s) && s@ == seq!['\r']),
        !(ev == PromptEvent::Elapsed && !initialized) ==> r.1 is None,
{
    match ev {
        PromptEvent::Elapsed if !initialized => {
            let s = "\r";
            proof {
                reveal_strlit("\r");
            }
            (true, Some(crate::strings::owned(s)))
        },
        _ => (true, None),
    }
}

} // verus!
