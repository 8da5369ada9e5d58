//! Exposing a console over TCP: what is done with each event of a TCP client
//! and of the console it is piped to.

use vstd::prelude::*;
use crate::shell_quote::{cow_str_into_string, lossy_text, utf8_lossy};
use crate::term::common::ConsoleMessage;

verus! {

/// An event of an exposed console.
pub enum ExposeEvent {
    /// Bytes came from the TCP client.
    TcpData(Vec<u8>),
    /// The TCP client closed its side.
    TcpEof,
    /// A message came from the console.
    Console(ConsoleMessage),
    /// The console connection ended.
    ConsoleEnd,
}

/// What is done for an event.
#[derive(Debug, Clone, PartialEq, Eq)]
pub enum ExposeAction {
    /// Send this text to the console.
    SendText(String),
    /// Ask the console to close.
    SendClose,
    /// Write these bytes to the TCP client.
    WriteTcp(Vec<u8>),
    /// Answer a ping with a pong carrying this payload.
    Pong(Vec<u8>),
    /// The console closed: answer with a close, then shut the TCP client down.
    ReplyCloseAndShutdown,
    /// Shut the TCP client down.
    Shutdown,
    /// Nothing (a message that the console does not send).
    Ignore,
}

/// Decides what an event does, `closing` telling whether a close was asked
/// for already; gives the new `closing` and the action. Data from the client
/// goes to the console as text (decoded where it is UTF-8, invalid bytes replaced); its end
/// asks the console to close. Console output goes to the client, a ping is
/// answered, and the console's close is answered, unless this side asked for
/// it, before the client is shut down.
pub fn expose_step(closing: bool, ev: ExposeEvent) -> (r: (bool, ExposeAction))
    ensures
        match ev {
            ExposeEvent::TcpData(d) => r.0 == closing && (r.1 matches ExposeAction::SendText(t) && t@
                == lossy_text(d@)),
            ExposeEvent::TcpEof => r == (true, ExposeAction::SendClose),
            ExposeEvent::Console(ConsoleMessage::Binary(b)) => r.0 == closing && (r.1 matches ExposeAction::WriteTcp(
                v,
            ) && v@ == b@),
            ExposeEvent::Console(ConsoleMessage::Ping(p)) => r.0 == closing && (r.1 matches ExposeAction::Pong(v)
                && v@ == p@),
            ExposeEvent::Console(ConsoleMessage::Close) => r == (closing, if closing {
                ExposeAction::Shutdown
            } else {
                ExposeAction::ReplyCloseAndShutdown
            }),
            ExposeEvent::Console(_) => r == (closing, ExposeAction::Ignore),
            ExposeEvent::ConsoleEnd => r == (closing, ExposeAction::Shutdown),
        },
{
    match ev {
        ExposeEvent::TcpData(d) => (closing, ExposeAction::SendText(cow_str_into_string(utf8_lossy(d.as_slice())))),
        ExposeEvent::TcpEof => (true, ExposeAction::SendClose),
        ExposeEvent::Console(m) => match m {
            ConsoleMessage::Binary(b) => (closing, ExposeAction::WriteTcp(b)),
            ConsoleMessage::Ping(p) => (closing, ExposeAction::Pong(p)),
            ConsoleMessage::Close => (closing, if closing {
                ExposeAction::Shutdown
            } else {
                ExposeAction::ReplyCloseAndShutdown
            }),
            _ => (closing, ExposeAction::Ignore),
        },
        ExposeEvent::ConsoleEnd => (closing, ExposeAction::Shutdown),
    }
}

} // verus!
