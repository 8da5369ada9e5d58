use cml::api::{ScriptCommand, ScriptWaitCondition, WaitMode};

fn cmd(wait_mode: WaitMode, skip_newline: bool, timeout: Option<u64>, command: &str) -> ScriptCommand {
    ScriptCommand { wait_mode, skip_newline, timeout, command: command.to_string() }
}

#[test]
fn script_plain_command() {
    assert_eq!(ScriptCommand::parse("show version"), Ok(cmd(WaitMode::Prompt, false, None, "show version")));
}

#[test]
fn script_modifiers() {
    assert_eq!(ScriptCommand::parse("~!reload"), Ok(cmd(WaitMode::Immediate, true, None, "reload")));
    assert_eq!(ScriptCommand::parse("%2500%conf t"), Ok(cmd(WaitMode::Prompt, false, Some(2500), "conf t")));
    assert_eq!(
        ScriptCommand::parse("`20:[confirm]`yes"),
        Ok(cmd(WaitMode::Expect(20, "[confirm]".to_string()), false, None, "yes"))
    );
    assert_eq!(
        ScriptCommand::parse("`5:a:b`~%+7%x"),
        Ok(cmd(WaitMode::Immediate, false, Some(7), "x"))
    );
}

#[test]
fn script_malformed_modifiers_give_the_line() {
    assert_eq!(ScriptCommand::parse("`20:unclosed"), Err("`20:unclosed".to_string()));
    assert_eq!(ScriptCommand::parse("%abc%x"), Err("%abc%x".to_string()));
    assert_eq!(ScriptCommand::parse("%12"), Err("%12".to_string()));
    assert_eq!(ScriptCommand::parse("%99999999999999999999%x"), Err("%99999999999999999999%x".to_string()));
}

#[test]
fn script_basic_and_getters() {
    let c = ScriptCommand::basic("hello".to_string());
    assert_eq!(c, cmd(WaitMode::Prompt, false, None, "hello"));
    assert!(!c.immediate());
    assert_eq!(c.timeout(), None);
    assert!(!c.skip_newline());
    let d = ScriptCommand::parse("~!%10%x").unwrap();
    assert!(d.immediate());
    assert_eq!(d.timeout(), Some(10));
    assert!(d.skip_newline());
}

#[test]
fn script_from_str_matches_parse() {
    let c: ScriptCommand = "~exit".parse().unwrap();
    assert_eq!(c, cmd(WaitMode::Immediate, false, None, "exit"));
}

#[test]
fn wait_condition_from_line() {
    assert_eq!(ScriptWaitCondition::from_line("\\~rest"), (1, ScriptWaitCondition::Prompt));
    assert_eq!(ScriptWaitCondition::from_line("~rest"), (1, ScriptWaitCondition::NoWait));
    assert_eq!(ScriptWaitCondition::from_line("`abc`rest"), (5, ScriptWaitCondition::Static("abc")));
    assert_eq!(ScriptWaitCondition::from_line("`a\\`b`rest"), (6, ScriptWaitCondition::Static("a\\`b")));
    assert_eq!(ScriptWaitCondition::from_line("`unclosed"), (0, ScriptWaitCondition::Prompt));
    assert_eq!(ScriptWaitCondition::from_line("plain"), (0, ScriptWaitCondition::Prompt));
    assert_eq!(ScriptWaitCondition::from_line("`é`"), (4, ScriptWaitCondition::Static("é")));
}

#[test]
fn wait_condition_map_and_into() {
    let s: ScriptWaitCondition<&str> = ScriptWaitCondition::Static("ab");
    assert_eq!(s.map(|x| x.len()), ScriptWaitCondition::Static(2));
    let p: ScriptWaitCondition<&str> = ScriptWaitCondition::Prompt;
    assert_eq!(p.map(|x| x.len()), ScriptWaitCondition::Prompt);
    let o: ScriptWaitCondition<String> = s.into();
    assert_eq!(o, ScriptWaitCondition::Static("ab".to_string()));
    let n: ScriptWaitCondition<String> = ScriptWaitCondition::<&str>::NoWait.into();
    assert_eq!(n, ScriptWaitCondition::NoWait);
}

#[test]
fn script_grave_text_is_waited_for() {
    assert_eq!(
        ScriptCommand::parse("`Password`cisco"),
        Ok(cmd(WaitMode::Expect(0, "Password".to_string()), false, None, "cisco"))
    );
    assert_eq!(
        ScriptCommand::parse("`20 no colon`x"),
        Ok(cmd(WaitMode::Expect(0, "20 no colon".to_string()), false, None, "x"))
    );
    assert_eq!(
        ScriptCommand::parse("`x:y`z"),
        Ok(cmd(WaitMode::Expect(0, "x:y".to_string()), false, None, "z"))
    );
}

#[test]
fn script_backslash_makes_a_modifier_literal() {
    assert_eq!(ScriptCommand::parse("\\~ls"), Ok(cmd(WaitMode::Prompt, false, None, "~ls")));
    assert_eq!(ScriptCommand::parse("~\\!x"), Ok(cmd(WaitMode::Immediate, false, None, "!x")));
    assert_eq!(ScriptCommand::parse("\\x"), Ok(cmd(WaitMode::Prompt, false, None, "\\x")));
    let c: ScriptCommand = "\\~ls".parse().unwrap();
    assert_eq!(c.command, "~ls");
}
