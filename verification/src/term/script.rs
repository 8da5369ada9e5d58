//! The decisions of a scripted console session: when the next command of the
//! script may be sent, and what is sent for it.

use vstd::prelude::*;
use vstd::utf8::encode_utf8;
use crate::api::{ScriptCommand, WaitMode};
use crate::term::buffer::{find_slice, occurs_at};
use crate::term::common::ConsoleUpdate;

verus! {

/// How far the console has been brought to show a prompt.
#[derive(Debug, Clone, Copy, PartialEq, Eq)]
pub enum InitStatus {
    /// Nothing sent yet.
    NotSent,
    /// The line was cleared and reprinted.
    Reprint,
    /// A newline was sent.
    Newline,
    /// A prompt was seen.
    Done,
}

/// The last update from the console: when it came, and the window of
/// recent output at that time.
pub struct LastUpdate {
    pub at: u64,
    pub update: ConsoleUpdate,
    pub window: Vec<u8>,
}

/// The state of a scripted session. Times are ticks of a monotonic clock.
pub struct RecvState {
    /// The command waiting to be sent.
    pub cmd_cache: Option<ScriptCommand>,
    /// The last update sent from the console.
    pub last_update: Option<LastUpdate>,
    /// When data was sent.
    pub data_sent: Vec<u64>,
    /// Whether the console was brought to a prompt.
    pub sent_init: InitStatus,
}

/// What a session does with its waiting command.
#[derive(Debug, Clone, PartialEq, Eq)]
pub enum CmdAction {
    /// The console takes no more input; the command is never sent.
    Closed,
    /// Nothing is sent yet.
    Wait,
    /// This text is sent to bring the console to a prompt; the command waits.
    Init(String),
    /// These texts are sent, in order, for the command.
    Send(Vec<String>),
    /// The output shows a pager prompt: a space is sent to page on, and the
    /// command waits.
    Page,
}

/// What a scripted session does before it waits for its next event.
#[derive(Debug, Clone, Copy, PartialEq, Eq)]
pub struct EventPlan {
    /// Tell the console that no more input comes.
    pub close_console: bool,
    /// Stop reading commands, as the console takes no more input.
    pub close_commands: bool,
    /// A new command may be taken.
    pub take_command: bool,
    /// The wait may end in a timeout.
    pub timeout_armed: bool,
}

/// What is sent for a command: its text unless it is empty, then a carriage
/// return unless the command asks for none.
pub open spec fn spec_send_texts(cmd: ScriptCommand) -> Seq<Seq<char>> {
    let t = if cmd.command@.len() > 0 { seq![cmd.command@] } else { Seq::empty() };
    if cmd.skip_newline { t } else { t.push(seq!['\r']) }
}

/// The text sent first to bring a console to a prompt: NAK then form feed
/// (delete the line, reprint it).
pub open spec fn init_reprint() -> Seq<char> {
    seq!['\x15', '\x0C']
}

pub open spec fn init_newline() -> Seq<char> {
    seq!['\r', '\n']
}

/// The output that an `Expect(len, _)` command searches: the last `len`
/// bytes of the window, or all of it where `len` is 0 (no scan length given)
/// or the window is shorter.
pub open spec fn expect_scan(window: Seq<u8>, len: nat) -> Seq<u8> {
    if len == 0 || len >= window.len() {
        window
    } else {
        window.subrange(window.len() - len, window.len() as int)
    }
}

pub open spec fn contains_bytes(h: Seq<u8>, n: Seq<u8>) -> bool {
    exists|i: int| occurs_at(h, n, i)
}

/// What `handle_cached_cmd` does: `before` and `after` are the state before
/// and after, `r` the action.
pub open spec fn cmd_handled(before: RecvState, after: RecvState, console_closed: bool, timed_out: bool, r: CmdAction) -> bool {
    &&& (after.last_update == before.last_update)
    &&& (after.data_sent == before.data_sent)
    &&& (console_closed ==> r == CmdAction::Closed && after.cmd_cache == before.cmd_cache
                && after.sent_init == before.sent_init)
    &&& (!console_closed && before.cmd_cache is None ==> r == CmdAction::Wait && after.cmd_cache is None
                && after.sent_init == before.sent_init)
    &&& (!console_closed && before.cmd_cache is Some ==> ({
                let cmd = before.cmd_cache.unwrap();
                let cr = before.spec_chunk_received();
                let sends = match cmd.wait_mode {
                    WaitMode::Immediate => true,
                    WaitMode::Expect(len, needle) => (len > 0 && encode_utf8(needle@).len() > len) || (
                    before.spec_new_output() && contains_bytes(
                        expect_scan(before.last_update.unwrap().window@, len as nat),
                        encode_utf8(needle@),
                    )) || timed_out,
                    WaitMode::Prompt => before.last_update is Some && ((cr && before.last_update.unwrap().update.last_prompt matches Some((_, true))) || timed_out),
                };
                let init = cmd.wait_mode is Prompt && before.last_update is None;
                &&& sends ==> (r matches CmdAction::Send(v) && v@.map_values(|s: String| s@)
                    == spec_send_texts(cmd) && after.cmd_cache is None)
                &&& init ==> after.cmd_cache == before.cmd_cache
                &&& (init && before.sent_init == InitStatus::NotSent) ==> (r matches CmdAction::Init(t) && t@
                    == init_reprint() && after.sent_init == InitStatus::Reprint)
                &&& (init && before.sent_init == InitStatus::Reprint) ==> (r matches CmdAction::Init(t) && t@
                    == init_newline() && after.sent_init == InitStatus::Newline)
                &&& (!sends && !init) ==> (r == CmdAction::Wait && after.cmd_cache == before.cmd_cache)
                &&& (cmd.wait_mode is Prompt && before.last_update is Some && cr && before.last_update.unwrap().update.last_prompt matches Some((_, true))) ==> after.sent_init
                    == InitStatus::Done
                &&& !(init || (cmd.wait_mode is Prompt && before.last_update is Some && cr && before.last_update.unwrap().update.last_prompt matches Some((_, true)))) ==> after.sent_init
                    == before.sent_init
            }))
}

impl RecvState {
    pub fn new() -> (r: RecvState)
        ensures
            r.cmd_cache is None,
            r.last_update is None,
            r.data_sent@.len() == 0,
            r.sent_init == InitStatus::NotSent,
    {
        RecvState { cmd_cache: None, last_update: None, data_sent: Vec::new(), sent_init: InitStatus::NotSent }
    }

    /// Whether data came from the console after the last data was sent.
    pub open spec fn spec_chunk_received(&self) -> bool {
        &&& self.last_update is Some
        &&& self.data_sent@.len() > 0
        &&& self.last_update.unwrap().at > self.data_sent@.last()
    }

    /// Whether there is output that an expected text is searched in: output
    /// came, after the last data sent if any was sent.
    pub open spec fn spec_new_output(&self) -> bool {
        &&& self.last_update is Some
        &&& (self.data_sent@.len() == 0 || self.last_update.unwrap().at > self.data_sent@.last())
    }

    pub fn new_output(&self) -> (r: bool)
        ensures
            r == self.spec_new_output(),
    {
        match (&self.last_update, self.data_sent.last()) {
            (Some(u), Some(s)) => u.at > *s,
            (Some(_), None) => true,
            _ => false,
        }
    }

    /// If we have received a data chunk from the terminal since the last
    /// command was sent.
    pub fn chunk_received_after_last_sent(&self) -> (r: bool)
        ensures
            r == self.spec_chunk_received(),
    {
        match (&self.last_update, self.data_sent.last()) {
            (Some(u), Some(s)) => u.at > *s,
            _ => false,
        }
    }

    /// The timeout in milliseconds: that of the waiting command if it has one,
    /// else one second before anything was sent or while the console is not
    /// yet at a prompt, else ten seconds.
    pub fn timeout(&self) -> (r: u64)
        ensures
            (self.cmd_cache matches Some(c) && c.timeout is Some) ==> r == self.cmd_cache.unwrap().timeout.unwrap(),
            !(self.cmd_cache matches Some(c) && c.timeout is Some) ==> r == (if self.data_sent@.len() == 0
                || self.sent_init != InitStatus::Done { 1000u64 } else { 10000u64 }),
    {
        let cmd_timeout = match &self.cmd_cache {
            Some(cmd) => cmd.timeout(),
            None => None,
        };
        match cmd_timeout {
            Some(ms) => ms,
            None => if self.data_sent.len() == 0 || !matches!(self.sent_init, InitStatus::Done) {
                1000
            } else {
                10000
            },
        }
    }

    /// Where `handle_cached_cmd` cannot go on: an `Expect` with an empty text
    /// once output has come, or a console that showed no prompt after both
    /// the reprint and the newline.
    pub open spec fn spec_stuck(&self, timed_out: bool) -> bool {
        match self.cmd_cache {
            Some(cmd) => match cmd.wait_mode {
                WaitMode::Expect(len, needle) => needle@.len() == 0 && self.spec_new_output(),
                WaitMode::Prompt => self.last_update is None && self.sent_init != InitStatus::NotSent && !(
                self.sent_init == InitStatus::Reprint && timed_out),
                WaitMode::Immediate => false,
            },
            None => false,
        }
    }

    pub fn is_stuck(&self, timed_out: bool) -> (r: bool)
        ensures
            r == self.spec_stuck(timed_out),
    {
        match &self.cmd_cache {
            Some(cmd) => match &cmd.wait_mode {
                WaitMode::Expect(_, needle) => needle.as_str().is_empty() && self.new_output(),
                WaitMode::Prompt => self.last_update.is_none() && !matches!(self.sent_init, InitStatus::NotSent)
                    && !(matches!(self.sent_init, InitStatus::Reprint) && timed_out),
                WaitMode::Immediate => false,
            },
            None => false,
        }
    }

    /// Decides whether the waiting command is sent now. A command that
    /// waits for a prompt goes once the console shows one as its last line,
    /// one that expects a text goes once the text shows up in the output
    /// received since the last send, or at all before anything was sent (in its last `len` bytes where a scan
    /// length is given; a text longer than that length can never show up and
    /// is sent at once), and either goes on a timeout; before any output, the
    /// console is first brought to a prompt.
    pub fn handle_cached_cmd(&mut self, console_closed: bool, timed_out: bool) -> (r: CmdAction)
        requires
            !console_closed ==> !old(self).spec_stuck(timed_out),
        ensures
            cmd_handled(*old(self), *final(self), console_closed, timed_out, r),
    {
        if console_closed {
            return CmdAction::Closed;
        }
        let cr = self.chunk_received_after_last_sent();
        let cmd = match self.cmd_cache.take() {
            None => {
                return CmdAction::Wait;
            },
            Some(c) => c,
        };
        let send = match &cmd.wait_mode {
            WaitMode::Immediate => true,
            WaitMode::Expect(len, needle) => {
                let nb = needle.as_str().as_bytes();
                if *len > 0 && nb.len() > *len {
                    true
                } else if !self.new_output() {
                    timed_out
                } else {
                    let u = self.last_update.as_ref().unwrap();
                    let w = u.window.as_slice();
                    let start = if *len == 0 || *len >= w.len() { 0 } else { w.len() - *len };
                    let chunk = slice_from(w, start);
                    proof {
                        crate::strings::lemma_encode_nonempty(needle@);
                    }
                    let found = find_slice(chunk, nb);
                    proof {
                        assert(chunk@ == expect_scan(u.window@, *len as nat));
                        if let Some(i) = found {
                            assert(occurs_at(chunk@, encode_utf8(needle@), i as int));
                        }
                    }
                    found.is_some() || timed_out
                }
            },
            WaitMode::Prompt => {
                match &self.last_update {
                    None => {
                        let text = if matches!(self.sent_init, InitStatus::NotSent) {
                            self.sent_init = InitStatus::Reprint;
                            nak_ff()
                        } else {
                            self.sent_init = InitStatus::Newline;
                            crlf()
                        };
                        self.cmd_cache = Some(cmd);
                        return CmdAction::Init(text);
                    },
                    Some(u) => {
                        let ready = match &u.update.last_prompt {
                            Some((_, is_last)) => *is_last,
                            None => false,
                        };
                        if cr && ready {
                            self.sent_init = InitStatus::Done;
                            true
                        } else {
                            timed_out
                        }
                    },
                }
            },
        };
        if !send {
            self.cmd_cache = Some(cmd);
            return CmdAction::Wait;
        }
        let mut out: Vec<String> = Vec::new();
        let skip = cmd.skip_newline;
        let text = cmd.command;
        if !text.as_str().is_empty() {
            out.push(text);
        }
        if !skip {
            out.push(carriage_return());
        }
        proof {
            assert(out@.map_values(|s: String| s@) =~= spec_send_texts(cmd));
        }
        CmdAction::Send(out)
    }

    /// Whether the last output shows a pager prompt.
    pub open spec fn spec_paged(&self) -> bool {
        self.last_update matches Some(u) && spec_is_paged(u.window@)
    }

    /// Whether `step` can go on: exactly its requirement.
    pub fn can_step(&self, console_closed: bool, timed_out: bool) -> (r: bool)
        ensures
            r == ((!self.spec_paged() && !console_closed) ==> !self.spec_stuck(timed_out)),
    {
        let paged = match &self.last_update {
            Some(u) => is_paged(u.window.as_slice()),
            None => false,
        };
        paged || console_closed || !self.is_stuck(timed_out)
    }

    /// Decides what follows an event: where the last output shows a pager
    /// prompt, a space is sent to page on and nothing else is done; else the
    /// waiting command is handled as `handle_cached_cmd` does.
    pub fn step(&mut self, console_closed: bool, timed_out: bool) -> (r: CmdAction)
        requires
            (!old(self).spec_paged() && !console_closed) ==> !old(self).spec_stuck(timed_out),
        ensures
            old(self).spec_paged() ==> r == CmdAction::Page && *final(self) == *old(self),
            !old(self).spec_paged() ==> cmd_handled(*old(self), *final(self), console_closed, timed_out, r),
    {
        let paged = match &self.last_update {
            Some(u) => is_paged(u.window.as_slice()),
            None => false,
        };
        if paged {
            CmdAction::Page
        } else {
            self.handle_cached_cmd(console_closed, timed_out)
        }
    }

    /// Records data sent at time `at`.
    pub fn record_sent(&mut self, at: u64)
        ensures
            final(self).data_sent@ == old(self).data_sent@.push(at),
            final(self).cmd_cache == old(self).cmd_cache,
            final(self).last_update == old(self).last_update,
            final(self).sent_init == old(self).sent_init,
    {
        self.data_sent.push(at);
    }

    /// Records an update from the console, received at time `at` with the
    /// window of output at that time.
    pub fn receive(&mut self, at: u64, update: ConsoleUpdate, window: Vec<u8>)
        ensures
            final(self).last_update == Some(LastUpdate { at, update, window }),
            final(self).cmd_cache == old(self).cmd_cache,
            final(self).data_sent == old(self).data_sent,
            final(self).sent_init == old(self).sent_init,
    {
        self.last_update = Some(LastUpdate { at, update, window });
    }

    /// Decides what is closed before the session waits, and which events
    /// the wait listens to. With no command waiting and none to come, the
    /// console is told that no more input comes; once the console takes no
    /// more input, reading commands stops. A command is taken only while none
    /// waits and more may come; the wait times out only while output may still
    /// come and a command waits or may come.
    pub fn next_event_plan(&self, commands_done: bool, console_closed: bool, output_done: bool) -> (r: EventPlan)
        ensures
            r.close_console == (self.cmd_cache is None && commands_done && !console_closed),
            r.close_commands == ((console_closed || r.close_console) && !commands_done),
            r.take_command == (!commands_done && self.cmd_cache is None),
            r.timeout_armed == (!output_done && (self.cmd_cache is Some || !commands_done)),
    {
        let waiting = self.cmd_cache.is_some();
        let close_console = !waiting && commands_done && !console_closed;
        let close_commands = (console_closed || close_console) && !commands_done;
        EventPlan {
            close_console,
            close_commands,
            take_command: !commands_done && !waiting,
            timeout_armed: !output_done && (waiting || !commands_done),
        }
    }

    /// The console takes no more input: the waiting command is dropped.
    pub fn console_closed(&mut self)
        ensures
            final(self).cmd_cache is None,
            final(self).last_update == old(self).last_update,
            final(self).data_sent == old(self).data_sent,
            final(self).sent_init == old(self).sent_init,
    {
        self.cmd_cache = None;
    }
}

fn slice_from(s: &[u8], start: usize) -> (r: &[u8])
    requires
        start <= s@.len(),
    ensures
        r@ == s@.subrange(start as int, s@.len() as int),
{
    vstd::slice::slice_subrange(s, start, s.len())
}

fn nak_ff() -> (r: String)
    ensures
        r@ == init_reprint(),
{
    let s = "\x15\x0C";
    proof {
        reveal_strlit("\x15\x0C");
    }
    crate::strings::owned(s)
}

fn crlf() -> (r: String)
    ensures
        r@ == init_newline(),
{
    let s = "\r\n";
    proof {
        reveal_strlit("\r\n");
    }
    crate::strings::owned(s)
}

fn carriage_return() -> (r: String)
    ensures
        r@ == seq!['\r'],
{
    let s = "\r";
    proof {
        reveal_strlit("\r");
    }
    crate::strings::owned(s)
}

/// The pager prompts of IOS and ASA.
pub open spec fn pager_ios() -> Seq<u8> {
    seq![32u8, 45, 45, 77, 111, 114, 101, 45, 45, 32]
}

pub open spec fn pager_asa() -> Seq<u8> {
    seq![60u8, 45, 45, 45, 32, 77, 111, 114, 101, 32, 45, 45, 45, 62]
}

/// Whether the last 16 bytes of output hold a pager prompt (` --More-- `
/// or `<--- More --->`), which is answered with a space.
pub open spec fn spec_is_paged(window: Seq<u8>) -> bool {
    let n = window.len();
    let tail = window.subrange(n - (if n <= 16 { n } else { 16 }), n as int);
    contains_bytes(tail, pager_ios()) || contains_bytes(tail, pager_asa())
}

pub fn is_paged(window: &[u8]) -> (r: bool)
    ensures
        r == spec_is_paged(window@),
{
    let n = window.len();
    let k = if n <= 16 { n } else { 16 };
    let tail = slice_from(window, n - k);
    let ios: [u8; 10] = [32, 45, 45, 77, 111, 114, 101, 45, 45, 32];
    let asa: [u8; 14] = [60, 45, 45, 45, 32, 77, 111, 114, 101, 32, 45, 45, 45, 62];
    proof {
        assert(ios@ =~= pager_ios());
        assert(asa@ =~= pager_asa());
    }
    let a = find_slice(tail, ios.as_slice());
    let b = find_slice(tail, asa.as_slice());
    proof {
        if let Some(i) = a {
            assert(occurs_at(tail@, pager_ios(), i as int));
        }
        if let Some(i) = b {
            assert(occurs_at(tail@, pager_asa(), i as int));
        }
    }
    a.is_some() || b.is_some()
}

} // verus!
