use cml::open_term::{console_key_index, find_console_key, open_step, parse_line, OpenPhase, OpenStep, OpenTarget, SubCmdOpen};
use cml::rest_types::key::Console;
use cml::rest_types::State;
use cml::terminal::ConsoleSearchError as E;

fn open(dest: &str) -> SubCmdOpen {
    SubCmdOpen { boot: false, ids: false, uuids: false, raw: false, ssh: false, uuid_or_lab: dest.to_string() }
}

#[test]
fn open_targets() {
    assert_eq!(open("abcd-1234").target(), OpenTarget::Uuid("abcd-1234".to_string()));
    assert_eq!(
        open("/lab/R1").target(),
        OpenTarget::Path { lab: "lab".to_string(), node: "R1".to_string(), line: None }
    );
    assert_eq!(
        open("/lab/R1/2").target(),
        OpenTarget::Path { lab: "lab".to_string(), node: "R1".to_string(), line: Some("2".to_string()) }
    );
    assert_eq!(open("/lab").target(), OpenTarget::Invalid);
    assert_eq!(open("/a/b/c/d").target(), OpenTarget::Invalid);
    assert_eq!(
        open("/lab/").target(),
        OpenTarget::Path { lab: "lab".to_string(), node: String::new(), line: None }
    );
}

#[test]
fn open_line_numbers() {
    assert_eq!(parse_line("3"), Some(3));
    assert_eq!(parse_line("x"), None);
    assert_eq!(parse_line(""), None);
}

#[test]
fn console_key_lookup() {
    let c = |l: u64| Console { lab_id: "l".to_string(), node_id: "n".to_string(), node_label: "r".to_string(), line: l };
    let keys = vec![("k1".to_string(), c(0)), ("k2".to_string(), c(1)), ("k2".to_string(), c(2))];
    assert_eq!(find_console_key(&keys, "k2"), Some(1));
    assert_eq!(find_console_key(&keys, "k3"), None);
    assert_eq!(console_key_index(&keys, "k2"), Ok(1));
    assert_eq!(console_key_index(&keys, "k3"), Err(E::NoMatchingLines));
}

#[test]
fn open_steps() {
    assert_eq!(open_step(false, true, OpenPhase::Search, Ok(()), None), OpenStep::Connect);
    assert_eq!(open_step(false, true, OpenPhase::Search, Err(E::NodeNotActive), None), OpenStep::Fail(E::NodeNotActive));
    assert_eq!(open_step(true, true, OpenPhase::Search, Err(E::NodeNotActive), None), OpenStep::StartAndPoll);
    assert_eq!(open_step(true, true, OpenPhase::Search, Err(E::NoMatchingLines), None), OpenStep::Fail(E::NoMatchingLines));
    assert_eq!(open_step(true, true, OpenPhase::Booting, Err(E::NodeNotActive), None), OpenStep::Poll);
    assert_eq!(open_step(true, true, OpenPhase::Booting, Ok(()), None), OpenStep::Connect);
    assert_eq!(open_step(true, false, OpenPhase::Booting, Ok(()), None), OpenStep::WaitBooted);
    assert_eq!(open_step(true, false, OpenPhase::Booting, Err(E::Unsupported), None), OpenStep::Fail(E::Unsupported));
    assert_eq!(open_step(true, false, OpenPhase::WaitBooted, Ok(()), Some(State::Started)), OpenStep::WaitBooted);
    assert_eq!(open_step(true, false, OpenPhase::WaitBooted, Ok(()), Some(State::Booted)), OpenStep::Connect);
}
