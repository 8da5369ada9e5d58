use cml::expose::{expose_step, ExposeAction, ExposeEvent};
use cml::term::common::ConsoleMessage;

#[test]
fn expose_steps() {
    assert_eq!(expose_step(false, ExposeEvent::TcpData(b"show\r".to_vec())), (false, ExposeAction::SendText("show\r".to_string())));
    assert_eq!(expose_step(false, ExposeEvent::TcpData(vec![b'a', 0xff])), (false, ExposeAction::SendText("a\u{FFFD}".to_string())));
    assert_eq!(expose_step(false, ExposeEvent::TcpEof), (true, ExposeAction::SendClose));
    assert_eq!(expose_step(true, ExposeEvent::Console(ConsoleMessage::Binary(b"R1#".to_vec()))), (true, ExposeAction::WriteTcp(b"R1#".to_vec())));
    assert_eq!(expose_step(false, ExposeEvent::Console(ConsoleMessage::Ping(vec![1]))), (false, ExposeAction::Pong(vec![1])));
    assert_eq!(expose_step(false, ExposeEvent::Console(ConsoleMessage::Close)), (false, ExposeAction::ReplyCloseAndShutdown));
    assert_eq!(expose_step(true, ExposeEvent::Console(ConsoleMessage::Close)), (true, ExposeAction::Shutdown));
    assert_eq!(expose_step(false, ExposeEvent::Console(ConsoleMessage::Text("x".to_string()))), (false, ExposeAction::Ignore));
    assert_eq!(expose_step(false, ExposeEvent::ConsoleEnd), (false, ExposeAction::Shutdown));
}
