use cml::completion::{
    bash_escape, complete_root, lab_data, parse_completion_args, remove_matching, split_nul_words, args_well_formed,
    CompletionArgs, CompletionError, CompletionKey, CompletionTarget, CompletionVars, EnvVarError, QuoteStyle,
};
use cml::rest_types::labeled::Data;
use cml::rest_types::{LabTopology, NodeDefinition, NodeDescription, State};

fn vars(line: &str, word: &str, prev: &str, words: &[&str]) -> CompletionVars {
    CompletionVars {
        line: line.to_string(),
        cursor: line.len(),
        key: None,
        reqtype: None,
        wordbreaks: None,
        words: Some(words.iter().map(|s| s.to_string()).collect()),
        exe: None,
        word: Some(word.to_string()),
        prev_word: Some(prev.to_string()),
    }
}

#[test]
fn completion_keys() {
    assert_eq!(CompletionKey::from_code("9"), Ok(CompletionKey::Normal));
    assert_eq!(CompletionKey::from_code("63"), Ok(CompletionKey::SuccessiveTabs));
    assert_eq!(CompletionKey::from_code("+37"), Ok(CompletionKey::Menu));
    assert_eq!(CompletionKey::from_code("65"), Err(CompletionError::BadCompletionKey("A".to_string())));
    assert_eq!(CompletionKey::from_code("256"), Err(CompletionError::BadEnvVarType("u8", "256".to_string())));
    assert_eq!(CompletionKey::from_char('!'), Ok(CompletionKey::PartialWordAlternatives));
    assert_eq!(CompletionKey::from_char('@'), Ok(CompletionKey::Unmodified));
}

#[test]
fn env_var_helpers() {
    let r = CompletionError::env_var_optional("X", Err(EnvVarError::NotPresent), |s| Ok(s));
    assert_eq!(r, Ok(None));
    let r = CompletionError::env_var_required("X", Err(EnvVarError::NotPresent), |s| Ok(s));
    assert_eq!(r, Err(("X", CompletionError::MissingEnvVar)));
    let r = CompletionError::env_var_required("X", Err(EnvVarError::NotUnicode(vec![0xff])), |s| Ok(s));
    assert_eq!(r, Err(("X", CompletionError::NotUnicode(vec![0xff]))));
    let r = CompletionError::env_var_optional("X", Ok("v".to_string()), |s| Ok(s.len()));
    assert_eq!(r, Ok(Some(1)));
    let e: CompletionError = EnvVarError::NotPresent.into();
    assert_eq!(e, CompletionError::MissingEnvVar);
}

#[test]
fn nul_words_are_terminated() {
    assert_eq!(split_nul_words(b"cmlterm\0open\0\0tail"), vec![b"cmlterm".to_vec(), b"open".to_vec(), Vec::new()]);
    assert_eq!(split_nul_words(b""), Vec::<Vec<u8>>::new());
}

#[test]
fn args_parsing() {
    let args: Vec<String> = ["prog", "--word", "op", "--prev-word", "cmlterm", "--wordbreaks", " :"].iter().map(|s| s.to_string()).collect();
    let a = parse_completion_args(&args);
    assert_eq!(a.word, Some("op".to_string()));
    assert_eq!(a.prev_word, Some("cmlterm".to_string()));
    assert_eq!(a.wordbreaks, Some(vec![' ', ':']));
    assert_eq!(a.exe, None);
    assert_eq!(a.found, 3);
    assert!(args_well_formed(&args, &a));
    let bad: Vec<String> = ["prog", "--word"].iter().map(|s| s.to_string()).collect();
    let b = parse_completion_args(&bad);
    assert_eq!(b.word, None);
    assert!(!args_well_formed(&bad, &b));
}

#[test]
fn vars_from_bash_env() {
    let args = CompletionArgs { wordbreaks: None, exe: Some("cmlterm".to_string()), word: Some("o".to_string()), prev_word: Some("cmlterm".to_string()), found: 3 };
    let v = CompletionVars::from_bash_env(
        Ok("cmlterm o".to_string()),
        Ok("9".to_string()),
        Ok("9".to_string()),
        Err(EnvVarError::NotPresent),
        Some(b"cmlterm\0o\0".to_vec()),
        Some(args),
    )
    .unwrap();
    assert_eq!(v.line, "cmlterm o");
    assert_eq!(v.cursor, 9);
    assert_eq!(v.key, Some(CompletionKey::Normal));
    assert_eq!(v.reqtype, None);
    assert_eq!(v.words, Some(vec!["cmlterm".to_string(), "o".to_string()]));
    assert_eq!(v.word, Some("o".to_string()));
    let err = CompletionVars::from_bash_env(Ok("x".to_string()), Ok("nine".to_string()), Err(EnvVarError::NotPresent), Err(EnvVarError::NotPresent), None, None);
    assert_eq!(err.err(), Some(("COMP_POINT", CompletionError::BadEnvVarType("64-bit decimal integer", "nine".to_string()))));
    let missing = CompletionVars::from_bash_env(Err(EnvVarError::NotPresent), Ok("1".to_string()), Err(EnvVarError::NotPresent), Err(EnvVarError::NotPresent), None, None);
    assert_eq!(missing.err(), Some(("COMP_LINE", CompletionError::MissingEnvVar)));
}

#[test]
fn flags_on_the_line() {
    let v = vars("cmlterm list -a --json", "", "--json", &["cmlterm", "list", "-a", "--json"]);
    assert!(v.has_flag('a', "--all"));
    assert!(v.has_flag('j', "--json"));
    assert!(!v.has_flag('v', "--vnc"));
    let w = vars("cmlterm list --vnc x", "", "", &[]);
    assert!(w.has_flag('v', "--vnc"));
    assert!(!w.has_flag('x', "--xyz"));
}

#[test]
fn flag_suggestions() {
    let v = vars("cmlterm list -a --", "--", "-a", &["cmlterm", "list", "-a", "--"]);
    let flags = [("-a", "--all"), ("-j", "--json")];
    assert_eq!(v.suggest_flag(false, &flags), vec!["--json"]);
    let w = vars("cmlterm list --j", "--j", "list", &["cmlterm", "list", "--j"]);
    assert_eq!(w.suggest_flag(false, &flags), vec!["--json"]);
    let x = vars("cmlterm open x", "x", "open", &["cmlterm", "open", "x"]);
    assert_eq!(x.suggest_flag(true, &flags), Vec::<&str>::new());
}

#[test]
fn escaping() {
    assert_eq!(bash_escape("/lab 1/R1".to_string(), QuoteStyle::Unquoted), "/lab\\ 1/R1");
    assert_eq!(bash_escape("a$b:c".to_string(), QuoteStyle::Unquoted), "a\\$b:c");
}

#[test]
fn removing_matches() {
    let mut v = vec!["--all", "--vnc", "--links", "--vnc"];
    remove_matching(&mut v, |s: &str| s == "--vnc");
    assert_eq!(v, vec!["--all", "--links"]);
}

#[test]
fn root_completion() {
    assert_eq!(complete_root(""), vec!["list ", "open ", "expose "]);
    assert_eq!(complete_root("o"), vec!["open "]);
    assert_eq!(complete_root("z"), Vec::<String>::new());
}

#[test]
fn list_completion() {
    let v = vars("cmlterm list --vnc ", "", "--vnc", &["cmlterm", "list", "--vnc", ""]);
    assert_eq!(v.target(), CompletionTarget::List);
    assert_eq!(v.complete_list(), vec!["--all ", "--json "]);
    let w = vars("cmlterm list ", "", "list", &["cmlterm", "list", ""]);
    assert_eq!(w.complete_list(), vec!["--all ", "--json ", "--vnc ", "--links "]);
}

#[test]
fn targets() {
    assert_eq!(vars("cmlterm ", "", "cmlterm", &["cmlterm", ""]).target(), CompletionTarget::Root);
    assert_eq!(vars("cmlterm open ", "", "open", &["cmlterm", "open", ""]).target(), CompletionTarget::Open);
    assert_eq!(vars("cmlterm expose ", "", "expose", &["cmlterm", "expose", ""]).target(), CompletionTarget::Unsupported);
}

fn labs() -> Vec<(String, String, Vec<(String, String)>)> {
    vec![
        ("l1".to_string(), "Core Lab".to_string(), vec![("n0".to_string(), "R1".to_string())]),
        ("l2".to_string(), "Edge".to_string(), vec![]),
    ]
}

#[test]
fn open_completion() {
    let keys = vec!["abcd-1".to_string(), "ef-2".to_string()];
    let v = vars("cmlterm open ", "", "open", &["cmlterm", "open", ""]);
    assert!(v.open_wants_labs());
    assert_eq!(
        v.complete_open(keys.clone(), labs()),
        vec!["/l1/", "/Core\\ Lab/", "/l2/", "/Edge/", "abcd-1 ", "ef-2 "]
    );
    let w = vars("cmlterm open /l1/", "/l1/", "open", &["cmlterm", "open", "/l1/"]);
    assert_eq!(w.complete_open(keys.clone(), labs()), vec!["/l1/n0", "/l1/R1"]);
    let x = vars("cmlterm open a", "a", "open", &["cmlterm", "open", "a"]);
    assert!(!x.open_wants_labs());
    assert_eq!(x.complete_open(keys.clone(), Vec::new()), vec!["abcd-1 "]);
    let y = vars("cmlterm open -", "-", "open", &["cmlterm", "open", "-"]);
    assert_eq!(y.complete_open(keys.clone(), Vec::new()), vec!["--boot"]);
    assert!(!y.open_show_all());
    let z = vars("cmlterm open -b /", "/", "-b", &["cmlterm", "open", "-b", "/"]);
    assert!(z.open_show_all());
}

fn node(id: &str, label: &str, state: State) -> Data<NodeDescription> {
    Data {
        id: id.to_string(),
        data: NodeDescription {
            x: 0, y: 0, label: label.to_string(), node_definition: NodeDefinition::IOSv, image_definition: None, state,
            configuration: None, cpus: None, cpu_limit: None, ram: None, data_volume: None, boot_disk_size: None, tags: Vec::new(),
        },
    }
}

fn topo(owner: &str, state: State) -> LabTopology {
    LabTopology {
        title: "T".to_string(), notes: String::new(), description: String::new(), owner: owner.to_string(), state,
        cluster_id: None, version: String::new(),
        nodes: vec![node("a", "A", State::Booted), node("b", "B", State::Stopped)],
        links: Vec::new(), interfaces: Vec::new(),
    }
}

#[test]
fn lab_data_filters_running() {
    let d = lab_data("me", false, "id".to_string(), topo("me", State::Started)).unwrap();
    assert_eq!(d.0, "id");
    assert_eq!(d.1, "T");
    assert_eq!(d.2, vec![("a".to_string(), "A".to_string())]);
    assert!(lab_data("me", false, "id".to_string(), topo("you", State::Started)).is_none());
    assert!(lab_data("me", false, "id".to_string(), topo("me", State::Stopped)).is_none());
    let all = lab_data("me", true, "id".to_string(), topo("you", State::Stopped)).unwrap();
    assert_eq!(all.2.len(), 2);
}
