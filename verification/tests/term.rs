use cml::api::{ScriptCommand, WaitMode};
use cml::rest_types::NodeDefinition;
use cml::term::buffer::{find_slice, rfind_slice, update_chunkbuf, ChunkBuffer};
use cml::term::common::{find_prompt, ConsoleMessage, ConsoleOutput, ConsoleUpdate, MessageAction, TermMsg};
use cml::term::script::{is_paged, CmdAction, EventPlan, InitStatus, LastUpdate, RecvState};
use cml::term::tty::{
    can_color_prompt, event_to_code, input_action, prompt_step, reprint_line, PromptEvent, InputAction, KeyCode, KeyError, KeyEvent, UserMeta, MOD_ALT, MOD_CONTROL, MOD_NONE,
    MOD_SHIFT,
};
use cml::term::{KeyedCache, KeyedCacheError};

fn buffer_with(cap: usize, data: &[u8]) -> ChunkBuffer {
    let mut b = ChunkBuffer::with_capacity(cap);
    update_chunkbuf(&mut b, data);
    b
}

#[test]
fn chunkbuf_appends_while_it_fits() {
    let mut b = ChunkBuffer::with_capacity(8);
    update_chunkbuf(&mut b, b"abc");
    update_chunkbuf(&mut b, b"de");
    assert_eq!(b.as_slice(), b"abcde");
    assert_eq!(b.capacity(), 8);
}

#[test]
fn chunkbuf_rolls_when_full() {
    let mut b = buffer_with(4, b"abcd");
    update_chunkbuf(&mut b, b"ef");
    assert_eq!(b.as_slice(), b"cdef");
    update_chunkbuf(&mut b, b"ghij");
    assert_eq!(b.as_slice(), b"ghij");
    assert_eq!(b.len(), 4);
}

#[test]
fn chunkbuf_long_chunk_keeps_its_last_bytes() {
    let mut b = buffer_with(4, b"ab");
    update_chunkbuf(&mut b, b"0123456");
    assert_eq!(b.as_slice(), b"3456");
    assert_eq!(b.capacity(), 4);
}

#[test]
fn chunkbuf_keeps_the_most_recent_bytes() {
    let mut b = buffer_with(4, b"12");
    update_chunkbuf(&mut b, b"345");
    assert_eq!(b.as_slice(), b"2345");
    let mut c = buffer_with(4, b"123");
    update_chunkbuf(&mut c, b"45");
    assert_eq!(c.as_slice(), b"2345");
    assert_eq!(c.capacity(), 4);
}

#[test]
fn find_slice_first_window() {
    assert_eq!(find_slice(b"abcabc", b"bc"), Some(1));
    assert_eq!(find_slice(b"abcabc", b"cb"), None);
    assert_eq!(find_slice(b"ab", b"abc"), None);
    assert_eq!(find_slice(b"abc", b"abc"), Some(0));
}

#[test]
fn keyed_cache_reference_is_invalidated_by_update() {
    let mut c = KeyedCache::with_capacity(4);
    let r1 = c.try_update(b"ab");
    assert_eq!(r1.try_borrow(&c).unwrap(), b"ab");
    let r2 = c.try_update(b"cde");
    // the most recent bytes are kept
    assert_eq!(r2.try_borrow(&c).unwrap(), b"bcde");
    assert_eq!(r1.try_borrow(&c), Err(KeyedCacheError::BadSequence { expected: 1, current: 2 }));
}

#[test]
fn prompt_ios() {
    let def = NodeDefinition::IOSv;
    assert_eq!(find_prompt(&def, b"\r\nRouter>"), Some(("Router>", true)));
    assert_eq!(find_prompt(&def, b"R1(config)#\r\nshow run\r\n  R1#  "), Some(("R1#", true)));
    assert_eq!(find_prompt(&def, b"R1#show ver\r\nCisco IOS"), Some(("R1#", false)));
    assert_eq!(find_prompt(&def, b"bad prompt!#"), None);
    assert_eq!(find_prompt(&def, b"#"), None);
    assert_eq!(find_prompt(&def, &[0xff, 0xfe, b'#']), None);
}

#[test]
fn prompt_asa_and_linux() {
    let asa = NodeDefinition::ASAv;
    assert_eq!(find_prompt(&asa, b"ciscoasa(config)# "), Some(("ciscoasa(config)#", true)));
    assert_eq!(find_prompt(&asa, b"-asa>"), None);
    assert_eq!(find_prompt(&asa, b"asa.x>"), None);
    let linux = NodeDefinition::Ubuntu;
    assert_eq!(find_prompt(&linux, b"user@host:~$ ls\nfile\nuser@host:~$ "), Some(("user@host:~$", true)));
    assert_eq!(find_prompt(&linux, b"a > b"), None);
    let unknown = NodeDefinition::Unknown("custom".to_string());
    assert_eq!(find_prompt(&unknown, b"switch>"), Some(("switch>", true)));
}

#[test]
fn prompt_length_limits() {
    let def = NodeDefinition::IOSv;
    let long = format!("{}#", "a".repeat(81));
    assert_eq!(find_prompt(&def, long.as_bytes()), Some((long.as_str(), true)));
    let too_long = format!("{}#", "a".repeat(82));
    assert_eq!(find_prompt(&def, too_long.as_bytes()), None);
    let linux = NodeDefinition::Alpine;
    let l100 = format!("{}$", "x".repeat(99));
    assert_eq!(find_prompt(&linux, l100.as_bytes()), Some((l100.as_str(), true)));
    let l101 = format!("{}$", "x".repeat(100));
    assert_eq!(find_prompt(&linux, l101.as_bytes()), None);
}

#[test]
fn prompt_counts_bytes_not_characters() {
    // "é" takes two bytes: 41 of them and the '#' make 83 bytes
    let def = NodeDefinition::IOSv;
    let p = format!("{}#", "é".repeat(41));
    assert_eq!(find_prompt(&def, p.as_bytes()), None);
    let q = format!("{}#", "é".repeat(40));
    assert_eq!(find_prompt(&def, q.as_bytes()), Some((q.as_str(), true)));
}

#[test]
fn console_output_updates() {
    let def = NodeDefinition::IOSv;
    let mut out = ConsoleOutput::new();
    let u1 = out.receive(&def, b"\r\nR1>".to_vec());
    assert!(u1.was_first);
    assert_eq!(u1.last_chunk, b"\r\nR1>".to_vec());
    assert_eq!(u1.last_prompt, Some(("R1>".to_string(), true)));
    let u2 = out.receive(&def, b"en\r\nPassword:".to_vec());
    assert!(!u2.was_first);
    assert_eq!(u2.last_prompt, Some(("R1>".to_string(), false)));
    assert_eq!(out.received_chunks, 2);
}

#[test]
fn term_msg_text() {
    match TermMsg::text("abc".to_string()) {
        TermMsg::Data(s) => assert_eq!(s, "abc"),
        TermMsg::Close => panic!("expected data"),
    }
}

fn update(prompt: Option<(&str, bool)>) -> ConsoleUpdate {
    ConsoleUpdate { last_chunk: Vec::new(), last_prompt: prompt.map(|(p, b)| (p.to_string(), b)), was_first: false }
}

fn state_with(cmd: ScriptCommand) -> RecvState {
    let mut s = RecvState::new();
    s.cmd_cache = Some(cmd);
    s
}

#[test]
fn script_console_initialisation() {
    let mut s = state_with(ScriptCommand::basic("show ip int br".to_string()));
    assert_eq!(s.timeout(), 1000);
    assert_eq!(s.handle_cached_cmd(false, false), CmdAction::Init("\u{15}\u{0C}".to_string()));
    assert_eq!(s.sent_init, InitStatus::Reprint);
    assert!(s.cmd_cache.is_some());
    assert!(s.is_stuck(false));
    assert_eq!(s.handle_cached_cmd(false, true), CmdAction::Init("\r\n".to_string()));
    assert_eq!(s.sent_init, InitStatus::Newline);
    assert!(s.is_stuck(true));
}

#[test]
fn script_prompt_wait() {
    let mut s = state_with(ScriptCommand::basic("show clock".to_string()));
    s.record_sent(5);
    s.receive(3, update(Some(("R1#", true))), b"R1#".to_vec());
    assert!(!s.chunk_received_after_last_sent());
    assert_eq!(s.handle_cached_cmd(false, false), CmdAction::Wait);
    s.receive(9, update(Some(("R1#", true))), b"R1#".to_vec());
    assert!(s.chunk_received_after_last_sent());
    assert_eq!(
        s.handle_cached_cmd(false, false),
        CmdAction::Send(vec!["show clock".to_string(), "\r".to_string()])
    );
    assert_eq!(s.sent_init, InitStatus::Done);
    assert!(s.cmd_cache.is_none());
    assert_eq!(s.timeout(), 10000);
    assert_eq!(s.handle_cached_cmd(false, false), CmdAction::Wait);
}

#[test]
fn script_prompt_timeout_and_closed() {
    let mut s = state_with(ScriptCommand { wait_mode: WaitMode::Prompt, skip_newline: true, timeout: Some(50), command: String::new() });
    s.receive(1, update(None), Vec::new());
    assert_eq!(s.timeout(), 50);
    assert_eq!(s.handle_cached_cmd(true, true), CmdAction::Closed);
    assert_eq!(s.handle_cached_cmd(false, true), CmdAction::Send(vec![]));
}

#[test]
fn script_expect() {
    let cmd = ScriptCommand { wait_mode: WaitMode::Expect(2, "ok".to_string()), skip_newline: false, timeout: None, command: "y".to_string() };
    let mut s = state_with(cmd);
    s.record_sent(1);
    s.receive(2, update(None), b"okxx".to_vec());
    // only the last two bytes are searched
    assert_eq!(s.handle_cached_cmd(false, false), CmdAction::Wait);
    s.receive(3, update(None), b"xxok".to_vec());
    assert_eq!(s.handle_cached_cmd(false, false), CmdAction::Send(vec!["y".to_string(), "\r".to_string()]));
}

#[test]
fn script_immediate() {
    let mut s = state_with(ScriptCommand::parse("~reload").unwrap());
    assert_eq!(s.handle_cached_cmd(false, false), CmdAction::Send(vec!["reload".to_string(), "\r".to_string()]));
    s.console_closed();
    assert!(s.cmd_cache.is_none());
}

#[test]
fn script_last_update_fields() {
    let mut s = RecvState::new();
    s.receive(7, update(None), b"x".to_vec());
    let LastUpdate { at, window, .. } = s.last_update.unwrap();
    assert_eq!(at, 7);
    assert_eq!(window, b"x".to_vec());
}

#[test]
fn pager_detection() {
    assert!(is_paged(b"interface Gi0/0\r\n --More-- "));
    assert!(is_paged(b"<--- More --->"));
    assert!(!is_paged(b" --More-- and then a lot more text"));
    assert!(!is_paged(b"R1#"));
}

fn key(code: KeyCode, modifiers: u8) -> KeyEvent {
    KeyEvent { code, modifiers }
}

#[test]
fn keys_plain() {
    assert_eq!(event_to_code(key(KeyCode::Char('a'), MOD_NONE)), Ok("a".to_string()));
    assert_eq!(event_to_code(key(KeyCode::Up, MOD_NONE)), Ok("\x1B[A".to_string()));
    assert_eq!(event_to_code(key(KeyCode::Enter, MOD_NONE)), Ok("\r".to_string()));
    assert_eq!(event_to_code(key(KeyCode::Home, MOD_NONE)), Ok("\x01".to_string()));
    assert_eq!(event_to_code(key(KeyCode::BackTab, MOD_NONE)), Ok("\x1BOP\t".to_string()));
    assert_eq!(event_to_code(key(KeyCode::Other, MOD_NONE)), Err(KeyError::Unhandled(key(KeyCode::Other, MOD_NONE))));
}

#[test]
fn keys_function() {
    assert_eq!(event_to_code(key(KeyCode::F(1), MOD_NONE)), Ok("\r\n".to_string()));
    assert_eq!(event_to_code(key(KeyCode::F(2), MOD_NONE)), Ok("\x1BOQ".to_string()));
    assert_eq!(event_to_code(key(KeyCode::F(5), MOD_NONE)), Ok("\x1B[15~".to_string()));
    assert_eq!(event_to_code(key(KeyCode::F(6), MOD_NONE)), Ok("[17~".to_string()));
    assert_eq!(event_to_code(key(KeyCode::F(11), MOD_NONE)), Ok("[23~".to_string()));
    assert_eq!(event_to_code(key(KeyCode::F(16), MOD_NONE)), Ok("[29~".to_string()));
    assert_eq!(event_to_code(key(KeyCode::F(20), MOD_NONE)), Ok("[34~".to_string()));
    assert_eq!(event_to_code(key(KeyCode::F(21), MOD_NONE)), Err(KeyError::InvalidFunctionKey(21)));
}

#[test]
fn keys_control() {
    assert_eq!(event_to_code(key(KeyCode::Char('p'), MOD_CONTROL)), Ok("\x1B[A".to_string()));
    assert_eq!(event_to_code(key(KeyCode::Left, MOD_CONTROL)), Ok("\x1Bb".to_string()));
    assert_eq!(event_to_code(key(KeyCode::Char('c'), MOD_CONTROL)), Ok("\x03".to_string()));
    assert_eq!(event_to_code(key(KeyCode::Char('Z'), MOD_CONTROL)), Ok("\x1A".to_string()));
    assert_eq!(event_to_code(key(KeyCode::Char('?'), MOD_CONTROL)), Ok("\x7F".to_string()));
    assert_eq!(event_to_code(key(KeyCode::Char('1'), MOD_CONTROL)), Err(KeyError::NoControlCharacter('1')));
    assert_eq!(event_to_code(key(KeyCode::Char('é'), MOD_CONTROL)), Err(KeyError::NonAsciiControl('é')));
    assert_eq!(event_to_code(key(KeyCode::Tab, MOD_CONTROL)), Err(KeyError::UnexpectedCtrl(KeyCode::Tab)));
}

#[test]
fn keys_alt_shift_other() {
    assert_eq!(event_to_code(key(KeyCode::Char('6'), MOD_ALT)), Ok("\x1Ex".to_string()));
    assert_eq!(event_to_code(key(KeyCode::Char('7'), MOD_ALT)), Err(KeyError::UnexpectedAlt(KeyCode::Char('7'))));
    assert_eq!(event_to_code(key(KeyCode::Char('A'), MOD_SHIFT)), Ok("A".to_string()));
    assert_eq!(event_to_code(key(KeyCode::Up, MOD_SHIFT)), Err(KeyError::UnexpectedShift(KeyCode::Up)));
    let both = key(KeyCode::Char('a'), MOD_CONTROL | MOD_ALT);
    assert_eq!(event_to_code(both), Err(KeyError::Unhandled(both)));
}

#[test]
fn tty_update_strips_first_newline_and_sets_title() {
    let mut m = UserMeta { last_set_prompt: String::new(), auto_prompt_ms: 1000 };
    let u = ConsoleUpdate { last_chunk: b"\r\nR1>".to_vec(), last_prompt: Some(("R1>".to_string(), true)), was_first: true };
    let out = m.handle_update(true, false, u, &[]);
    assert_eq!(out.data, b"R1>".to_vec());
    assert_eq!(out.title, Some("R1>".to_string()));
    assert_eq!(m.last_set_prompt, "R1>");
    let again = ConsoleUpdate { last_chunk: b"\r\nR1>".to_vec(), last_prompt: Some(("R1>".to_string(), true)), was_first: false };
    let out2 = m.handle_update(true, false, again, &[]);
    assert_eq!(out2.data, b"\r\nR1>".to_vec());
    assert_eq!(out2.title, None);
}

#[test]
fn tty_update_not_a_terminal() {
    let mut m = UserMeta { last_set_prompt: String::new(), auto_prompt_ms: 1000 };
    let u = ConsoleUpdate { last_chunk: b"\r\nR1>".to_vec(), last_prompt: Some(("R1>".to_string(), true)), was_first: true };
    let out = m.handle_update(false, false, u, &[]);
    assert_eq!(out.data, b"\r\nR1>".to_vec());
    assert_eq!(out.title, None);
    assert_eq!(m.last_set_prompt, "");
}

#[test]
fn tty_update_strips_every_leading_newline_pair() {
    let mut m = UserMeta { last_set_prompt: String::new(), auto_prompt_ms: 1000 };
    let u = ConsoleUpdate { last_chunk: b"\r\n\r\n\rR1>".to_vec(), last_prompt: None, was_first: true };
    let out = m.handle_update(true, false, u, &[]);
    assert_eq!(out.data, b"\rR1>".to_vec());
    assert_eq!(out.title, None);
    let only = ConsoleUpdate { last_chunk: b"\r\n\r\n".to_vec(), last_prompt: None, was_first: true };
    assert_eq!(m.handle_update(true, false, only, &[]).data, Vec::<u8>::new());
}

#[test]
fn ctrl_d_closes_other_keys_send() {
    let ctrl_d = KeyEvent { code: KeyCode::Char('d'), modifiers: MOD_CONTROL };
    assert_eq!(input_action(ctrl_d), InputAction::Close);
    let up = KeyEvent { code: KeyCode::Up, modifiers: MOD_NONE };
    assert_eq!(input_action(up), InputAction::Send("\x1B[A".to_string()));
    let d = KeyEvent { code: KeyCode::Char('d'), modifiers: MOD_NONE };
    assert_eq!(input_action(d), InputAction::Send("d".to_string()));
    let f30 = KeyEvent { code: KeyCode::F(30), modifiers: MOD_NONE };
    assert_eq!(input_action(f30), InputAction::Ignore(KeyError::InvalidFunctionKey(30)));
}

#[test]
fn console_messages_dispatch() {
    let def = NodeDefinition::IOSv;
    let mut out = ConsoleOutput::new();
    match out.handle_message(&def, ConsoleMessage::Ping(vec![1, 2])) {
        MessageAction::Pong(p) => assert_eq!(p, vec![1, 2]),
        _ => panic!("a ping is answered"),
    }
    assert_eq!(out.received_chunks, 0);
    assert!(matches!(out.handle_message(&def, ConsoleMessage::Text("x".to_string())), MessageAction::Ignore));
    assert!(matches!(out.handle_message(&def, ConsoleMessage::Close), MessageAction::Ignore));
    match out.handle_message(&def, ConsoleMessage::Binary(b"\r\nR1#".to_vec())) {
        MessageAction::Update(u) => {
            assert_eq!(u.last_chunk, b"\r\nR1#".to_vec());
            assert!(u.was_first);
            assert_eq!(u.last_prompt, Some(("R1#".to_string(), true)));
        }
        _ => panic!("output is reported"),
    }
    assert_eq!(out.received_chunks, 1);
}

#[test]
fn scripted_event_plans() {
    let mut st = RecvState::new();
    // commands may still come: take one, time out while waiting
    assert_eq!(
        st.next_event_plan(false, false, false),
        EventPlan { close_console: false, close_commands: false, take_command: true, timeout_armed: true }
    );
    // no command waits and none will come: close the console, no timeout
    assert_eq!(
        st.next_event_plan(true, false, false),
        EventPlan { close_console: true, close_commands: false, take_command: false, timeout_armed: false }
    );
    // the console closed while commands may come: stop reading them
    assert_eq!(
        st.next_event_plan(false, true, true),
        EventPlan { close_console: false, close_commands: true, take_command: true, timeout_armed: false }
    );
    st.cmd_cache = Some(ScriptCommand::basic("show ver".to_string()));
    assert_eq!(
        st.next_event_plan(true, false, false),
        EventPlan { close_console: false, close_commands: false, take_command: false, timeout_armed: true }
    );
}

#[test]
fn tty_update_colors_a_prompt_in_the_chunk() {
    let mut m = UserMeta { last_set_prompt: "R1#".to_string(), auto_prompt_ms: 1000 };
    let window = b"show ver\r\nR1#".to_vec();
    let u = ConsoleUpdate { last_chunk: b"\r\nR1#".to_vec(), last_prompt: Some(("R1#".to_string(), true)), was_first: false };
    let out = m.handle_update(true, true, u, &window);
    assert_eq!(out.data, b"\r\n".to_vec());
    assert_eq!(out.prompt, Some(b"R1#".to_vec()));
    assert_eq!(out.title, None);
}

#[test]
fn tty_update_recolors_a_partial_prompt_from_the_window() {
    let mut m = UserMeta { last_set_prompt: String::new(), auto_prompt_ms: 1000 };
    let window = b"\r\nR1#".to_vec();
    let u = ConsoleUpdate { last_chunk: b"1#".to_vec(), last_prompt: Some(("R1#".to_string(), true)), was_first: false };
    let out = m.handle_update(false, true, u, &window);
    assert_eq!(out.data, b"1#\r".to_vec());
    assert_eq!(out.prompt, Some(b"R1#".to_vec()));
    assert_eq!(out.title, None);
}

#[test]
fn tty_update_colors_nothing_without_utf8_or_colour() {
    let mut m = UserMeta { last_set_prompt: String::new(), auto_prompt_ms: 1000 };
    let u = ConsoleUpdate { last_chunk: vec![0xff, b'#'], last_prompt: Some(("R1#".to_string(), true)), was_first: false };
    let out = m.handle_update(false, true, u, &[b'R', 0xff, b'#']);
    assert_eq!(out.data, vec![0xff, b'#']);
    assert_eq!(out.prompt, None);
    let plain = ConsoleUpdate { last_chunk: b"R1#".to_vec(), last_prompt: Some(("R1#".to_string(), true)), was_first: false };
    let out = m.handle_update(false, false, plain, b"R1#");
    assert_eq!(out.data, b"R1#".to_vec());
    assert_eq!(out.prompt, None);
}

#[test]
fn color_conditions_checked() {
    let u = ConsoleUpdate { last_chunk: b"\r\nR1#".to_vec(), last_prompt: Some(("R1#".to_string(), true)), was_first: false };
    assert!(can_color_prompt(true, true, &u, b"show\r\nR1#"));
    // the window does not end with the data
    assert!(!can_color_prompt(true, true, &u, b"R1#\r\nxx"));
    // colour off, or the output does not end with the prompt: nothing to check
    assert!(can_color_prompt(true, false, &u, b"xx"));
    let not_last = ConsoleUpdate { last_chunk: b"ab".to_vec(), last_prompt: Some(("R1#".to_string(), false)), was_first: false };
    assert!(can_color_prompt(true, true, &not_last, b"xx"));
    // the window, trailing space aside, does not end with the prompt
    let u2 = ConsoleUpdate { last_chunk: b"1#".to_vec(), last_prompt: Some(("R2#".to_string(), true)), was_first: false };
    assert!(!can_color_prompt(false, true, &u2, b"R1#"));
}

#[test]
fn rfind_slice_finds_the_last() {
    assert_eq!(rfind_slice(b"abcabc", b"bc"), Some(4));
    assert_eq!(rfind_slice(b"aaa", b"aa"), Some(1));
    assert_eq!(rfind_slice(b"abc", b"x"), None);
    assert_eq!(rfind_slice(b"abc", b""), Some(3));
    assert_eq!(rfind_slice(b"ab", b"abc"), None);
}

#[test]
fn ssh_open_command() {
    assert_eq!(cml::term::ssh::open_command("lab1", "n0", 2), "open /lab1/n0/2");
}

#[test]
fn ssh_greeting_is_dropped() {
    let mut g = cml::term::ssh::SshGreeting::new();
    assert_eq!(g.receive(b"Connected to console\r\nEscape char"), None);
    assert!(g.initializing);
    assert_eq!(g.receive(b"acter is '^]'.\r\nR1>"), Some(b"R1>".to_vec()));
    assert!(!g.initializing);
    assert_eq!(g.receive(b" show"), Some(b" show".to_vec()));
    let mut h = cml::term::ssh::SshGreeting::new();
    assert_eq!(h.receive(b"Escape character is '^]'.\r\n"), None);
    assert!(!h.initializing);
}

#[test]
fn script_step_pages_before_sending() {
    let mut s = state_with(ScriptCommand::basic("show run".to_string()));
    s.record_sent(5);
    s.receive(9, update(Some(("R1#", false))), b"line\r\n --More-- ".to_vec());
    assert!(s.can_step(false, false));
    assert_eq!(s.step(false, false), CmdAction::Page);
    assert!(s.cmd_cache.is_some());
    s.receive(12, update(Some(("R1#", true))), b"end\r\nR1#".to_vec());
    assert_eq!(s.step(false, false), CmdAction::Send(vec!["show run".to_string(), "\r".to_string()]));
}

#[test]
fn script_grave_text_waits_for_output() {
    let mut s = state_with(ScriptCommand::parse("`Password`cisco").unwrap());
    assert_eq!(s.handle_cached_cmd(false, false), CmdAction::Wait);
    s.receive(1, update(None), b"Username: admin\r\n".to_vec());
    assert_eq!(s.handle_cached_cmd(false, false), CmdAction::Wait);
    s.receive(2, update(None), b"Username: admin\r\nPassword: ".to_vec());
    assert_eq!(s.handle_cached_cmd(false, false), CmdAction::Send(vec!["cisco".to_string(), "\r".to_string()]));
}

#[test]
fn script_expect_waits_for_output_after_send() {
    let mut s = state_with(ScriptCommand::parse("`Password`cisco").unwrap());
    s.receive(1, update(None), b"Password: ".to_vec());
    s.record_sent(2);
    assert_eq!(s.handle_cached_cmd(false, false), CmdAction::Wait);
    assert_eq!(s.handle_cached_cmd(false, true), CmdAction::Send(vec!["cisco".to_string(), "\r".to_string()]));
}

#[test]
fn script_expect_text_longer_than_scan_goes_at_once() {
    let cmd = ScriptCommand { wait_mode: WaitMode::Expect(2, "okay".to_string()), skip_newline: true, timeout: None, command: "y".to_string() };
    let mut s = state_with(cmd);
    assert_eq!(s.handle_cached_cmd(false, false), CmdAction::Send(vec!["y".to_string()]));
}

#[test]
fn script_closed_console_with_empty_expect() {
    let cmd = ScriptCommand { wait_mode: WaitMode::Expect(0, String::new()), skip_newline: false, timeout: None, command: "y".to_string() };
    let mut s = state_with(cmd);
    s.receive(1, update(None), b"x".to_vec());
    assert!(s.is_stuck(false));
    assert!(s.can_step(true, false));
    assert_eq!(s.handle_cached_cmd(true, false), CmdAction::Closed);
}

#[test]
fn interactive_prompt_bring_up() {
    assert_eq!(reprint_line(), "\x0C");
    assert_eq!(prompt_step(false, PromptEvent::Elapsed), (true, Some("\r".to_string())));
    assert_eq!(prompt_step(true, PromptEvent::Elapsed), (true, None));
    assert_eq!(prompt_step(false, PromptEvent::Output), (true, None));
}
