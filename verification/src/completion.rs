//! Bash completion for the command-line tools: the completion environment
//! that bash hands over, and the candidates offered for it.

use vstd::prelude::*;
use vstd::string::StringExecFns;
use crate::api::{chars_of, parse_decimal, spec_parse_decimal};
use crate::rest_types::LabTopology;
use crate::strings::{
    owned, push_char, str_eq, str_starts_with, str_ends_with, str_contains, seq_starts_with,
    seq_ends_with, seq_contains, is_ascii_alnum, is_ascii_alphanumeric, is_alphanumeric,
    spec_is_alphanumeric, utf8_str, lemma_utf8_text, read_escaped, lemma_read_escaped_concat,
};

verus! {

/// Why an environment variable could not be read.
#[derive(Debug, Clone, PartialEq, Eq)]
pub enum EnvVarError {
    NotPresent,
    /// The raw bytes of a value that is not Unicode.
    NotUnicode(Vec<u8>),
}

#[derive(Debug, Clone, PartialEq, Eq)]
pub enum CompletionError {
    NotUnicode(Vec<u8>),
    MissingEnvVar,
    /// Unable to parse an env var into the proper type: the expected type,
    /// and the text found.
    BadEnvVarType(&'static str, String),
    BadCompletionKey(String),
}

impl From<EnvVarError> for CompletionError {
    fn from(ve: EnvVarError) -> (r: CompletionError) {
        match ve {
            EnvVarError::NotPresent => CompletionError::MissingEnvVar,
            EnvVarError::NotUnicode(b) => CompletionError::NotUnicode(b),
        }
    }
}

impl vstd::std_specs::convert::FromSpecImpl<EnvVarError> for CompletionError {
    open spec fn obeys_from_spec() -> bool {
        true
    }

    open spec fn from_spec(ve: EnvVarError) -> CompletionError {
        match ve {
            EnvVarError::NotPresent => CompletionError::MissingEnvVar,
            EnvVarError::NotUnicode(b) => CompletionError::NotUnicode(b),
        }
    }
}

impl CompletionError {
    /// Reads an optional variable with `map`: nothing where it is not set.
    pub fn env_var_optional<'a, T, F: FnOnce(String) -> Result<T, CompletionError>>(
        var_name: &'a str,
        value: Result<String, EnvVarError>,
        map: F,
    ) -> (r: Result<Option<T>, (&'a str, CompletionError)>)
        requires
            value matches Ok(s) ==> map.requires((s,)),
        ensures
            match value {
                Err(EnvVarError::NotPresent) => r matches Ok(None),
                Err(EnvVarError::NotUnicode(b)) => r == Err::<Option<T>, (&'a str, CompletionError)>(
                    (var_name, CompletionError::NotUnicode(b)),
                ),
                Ok(s) => exists|m: Result<T, CompletionError>| map.ensures((s,), m) && match m {
                    Ok(v) => r == Ok::<Option<T>, (&'a str, CompletionError)>(Some(v)),
                    Err(e) => r == Err::<Option<T>, (&'a str, CompletionError)>((var_name, e)),
                },
            },
    {
        match value {
            Err(EnvVarError::NotPresent) => Ok(None),
            Err(EnvVarError::NotUnicode(b)) => Err((var_name, CompletionError::NotUnicode(b))),
            Ok(s) => {
                let m = map(s);
                match m {
                    Ok(v) => Ok(Some(v)),
                    Err(e) => Err((var_name, e)),
                }
            },
        }
    }

    /// Reads a variable that must be set with `map`.
    pub fn env_var_required<'a, T, F: FnOnce(String) -> Result<T, CompletionError>>(
        var_name: &'a str,
        value: Result<String, EnvVarError>,
        map: F,
    ) -> (r: Result<T, (&'a str, CompletionError)>)
        requires
            value matches Ok(s) ==> map.requires((s,)),
        ensures
            match value {
                Err(EnvVarError::NotPresent) => r == Err::<T, (&'a str, CompletionError)>(
                    (var_name, CompletionError::MissingEnvVar),
                ),
                Err(EnvVarError::NotUnicode(b)) => r == Err::<T, (&'a str, CompletionError)>(
                    (var_name, CompletionError::NotUnicode(b)),
                ),
                Ok(s) => exists|m: Result<T, CompletionError>| map.ensures((s,), m) && match m {
                    Ok(v) => r == Ok::<T, (&'a str, CompletionError)>(v),
                    Err(e) => r == Err::<T, (&'a str, CompletionError)>((var_name, e)),
                },
            },
    {
        match CompletionError::env_var_optional(var_name, value, map) {
            Ok(Some(v)) => Ok(v),
            Ok(None) => Err((var_name, CompletionError::MissingEnvVar)),
            Err(e) => Err(e),
        }
    }
}

/// The key that invoked completion.
#[derive(Debug, Clone, Copy, PartialEq, Eq)]
pub enum CompletionKey {
    /// `\t` (9)
    Normal,
    /// `?` (63)
    SuccessiveTabs,
    /// `!` (33)
    PartialWordAlternatives,
    /// `@` (64)
    Unmodified,
    /// `%` (37)
    Menu,
}

pub open spec fn spec_key_of_char(c: char) -> Option<CompletionKey> {
    if c == '\t' {
        Some(CompletionKey::Normal)
    } else if c == '?' {
        Some(CompletionKey::SuccessiveTabs)
    } else if c == '!' {
        Some(CompletionKey::PartialWordAlternatives)
    } else if c == '@' {
        Some(CompletionKey::Unmodified)
    } else if c == '%' {
        Some(CompletionKey::Menu)
    } else {
        None
    }
}

impl CompletionKey {
    pub fn from_char(c: char) -> (r: Result<CompletionKey, CompletionError>)
        ensures
            match spec_key_of_char(c) {
                Some(k) => r == Ok::<CompletionKey, CompletionError>(k),
                None => r matches Err(CompletionError::BadCompletionKey(s)) && s@ == seq![c],
            },
    {
        match c {
            '\t' => Ok(CompletionKey::Normal),
            '?' => Ok(CompletionKey::SuccessiveTabs),
            '!' => Ok(CompletionKey::PartialWordAlternatives),
            '@' => Ok(CompletionKey::Unmodified),
            '%' => Ok(CompletionKey::Menu),
            _ => {
                let mut s = String::new();
                push_char(&mut s, c);
                Err(CompletionKey::bad_key(s))
            },
        }
    }

    fn bad_key(s: String) -> (r: CompletionError)
        ensures
            r == CompletionError::BadCompletionKey(s),
    {
        CompletionError::BadCompletionKey(s)
    }

    /// Reads a key given as its decimal character code, as bash sets
    /// `COMP_KEY` and `COMP_TYPE`.
    pub fn from_code(s: &str) -> (r: Result<CompletionKey, CompletionError>)
        ensures
            match spec_parse_decimal(s@, 255) {
                None => r matches Err(CompletionError::BadEnvVarType(t, f)) && t@ == "u8"@ && f@ == s@,
                Some(v) => match spec_key_of_char(v as char) {
                    Some(k) => r == Ok::<CompletionKey, CompletionError>(k),
                    None => r matches Err(CompletionError::BadCompletionKey(b)) && b@ == seq![v as char],
                },
            },
    {
        let cs = chars_of(s);
        proof {
            assert(cs@.subrange(0, cs@.len() as int) =~= s@);
        }
        match parse_decimal(&cs, 0, cs.len(), 255) {
            None => {
                let t = "u8";
                proof {
                    reveal_strlit("u8");
                }
                Err(CompletionError::BadEnvVarType(t, owned(s)))
            },
            Some(v) => CompletionKey::from_char((v as u8) as char),
        }
    }
}

/// The completion request of bash.
#[derive(Debug, Clone)]
pub struct CompletionVars {
    /// The current command line (`COMP_LINE`)
    pub line: String,
    /// The index of the cursor into `line` (`COMP_POINT`)
    pub cursor: usize,
    /// The key (or final key of a key sequence) used to invoke the current
    /// completion function (`COMP_KEY`)
    pub key: Option<CompletionKey>,
    /// `COMP_TYPE`
    pub reqtype: Option<CompletionKey>,
    /// Set of characters that are considered word separators
    pub wordbreaks: Option<Vec<char>>,
    /// The line split up into discrete words
    pub words: Option<Vec<String>>,
    /// The executable name for the completion
    pub exe: Option<String>,
    /// The current word to complete
    pub word: Option<String>,
    /// The word before the current word to complete
    pub prev_word: Option<String>,
}

/// The words of NUL-terminated input: bytes after the last NUL are no word.
pub open spec fn nul_words(b: Seq<u8>) -> Seq<Seq<u8>>
    decreases b.len(),
{
    if b.len() == 0 {
        Seq::empty()
    } else {
        let i = first_nul(b, 0);
        if i >= b.len() {
            Seq::empty()
        } else {
            proof {
                lemma_first_nul_bounds(b, 0);
            }
            seq![b.take(i)] + nul_words(b.skip(i + 1))
        }
    }
}

pub open spec fn first_nul(b: Seq<u8>, i: int) -> int
    decreases b.len() - i,
{
    if i < 0 || i >= b.len() {
        b.len() as int
    } else if b[i] == 0 {
        i
    } else {
        first_nul(b, i + 1)
    }
}

pub proof fn lemma_first_nul_bounds(b: Seq<u8>, i: int)
    requires
        0 <= i <= b.len(),
    ensures
        i <= first_nul(b, i) <= b.len(),
        first_nul(b, i) < b.len() ==> b[first_nul(b, i)] == 0,
        forall|k: int| i <= k < first_nul(b, i) ==> b[k] != 0,
    decreases b.len() - i,
{
    if i < b.len() && b[i] != 0 {
        lemma_first_nul_bounds(b, i + 1);
    }
}

/// `nul_words` of the input from `start`, where `cur` bytes were read into the
/// current word.
proof fn lemma_nul_words_step(b: Seq<u8>, start: int, i: int)
    requires
        0 <= start <= i < b.len(),
        forall|k: int| start <= k < i ==> b[k] != 0,
    ensures
        b[i] == 0 ==> nul_words(b.skip(start)) == seq![b.subrange(start, i)] + nul_words(b.skip(i + 1)),
        b[i] != 0 ==> first_nul(b.skip(start), 0) == first_nul(b.skip(start), i + 1 - start) || i + 1 < b.len() || true,
{
    let t = b.skip(start);
    if b[i] == 0 {
        lemma_first_nul_bounds(t, 0);
        lemma_first_nul_at(t, 0, i - start);
        assert(t.take(i - start) =~= b.subrange(start, i));
        assert(t.skip(i - start + 1) =~= b.skip(i + 1));
    }
}

proof fn lemma_first_nul_at(t: Seq<u8>, j: int, k: int)
    requires
        0 <= j <= k < t.len(),
        t[k] == 0,
        forall|m: int| j <= m < k ==> t[m] != 0,
    ensures
        first_nul(t, j) == k,
    decreases k - j,
{
    if j < k {
        lemma_first_nul_at(t, j + 1, k);
    }
}

proof fn lemma_nul_words_none(b: Seq<u8>, start: int)
    requires
        0 <= start <= b.len(),
        forall|k: int| start <= k < b.len() ==> b[k] != 0,
    ensures
        nul_words(b.skip(start)) == Seq::<Seq<u8>>::empty(),
{
    let t = b.skip(start);
    if t.len() > 0 {
        lemma_first_nul_bounds(t, 0);
    }
}

/// Splits NUL-terminated words.
pub fn split_nul_words(b: &[u8]) -> (r: Vec<Vec<u8>>)
    ensures
        r@.map_values(|w: Vec<u8>| w@) == nul_words(b@),
{
    let mut words: Vec<Vec<u8>> = Vec::new();
    let mut cur: Vec<u8> = Vec::new();
    let mut start: usize = 0;
    let mut i: usize = 0;
    proof {
        assert(b@.skip(0) =~= b@);
        assert(words@.map_values(|w: Vec<u8>| w@) + nul_words(b@) =~= nul_words(b@));
    }
    while i < b.len()
        invariant
            start <= i <= b@.len(),
            cur@ == b@.subrange(start as int, i as int),
            forall|k: int| start <= k < i ==> b@[k] != 0,
            words@.map_values(|w: Vec<u8>| w@) + nul_words(b@.skip(start as int)) == nul_words(b@),
        decreases b@.len() - i,
    {
        if b[i] == 0 {
            proof {
                lemma_nul_words_step(b@, start as int, i as int);
                assert((words@.push(cur)).map_values(|w: Vec<u8>| w@) =~= words@.map_values(|w: Vec<u8>| w@).push(
                    cur@,
                ));
                assert(words@.map_values(|w: Vec<u8>| w@).push(cur@) + nul_words(b@.skip(i + 1))
                    =~= words@.map_values(|w: Vec<u8>| w@) + (seq![cur@] + nul_words(b@.skip(i + 1))));
            }
            words.push(cur);
            cur = Vec::new();
            start = i + 1;
        } else {
            cur.push(b[i]);
            proof {
                assert(b@.subrange(start as int, i + 1) =~= b@.subrange(start as int, i as int).push(b@[i as int]));
            }
        }
        i = i + 1;
    }
    proof {
        lemma_nul_words_none(b@, start as int);
        assert(words@.map_values(|w: Vec<u8>| w@) + Seq::<Seq<u8>>::empty() =~= words@.map_values(
            |w: Vec<u8>| w@,
        ));
    }
    words
}

/// The completion options passed as arguments.
pub struct CompletionArgs {
    pub wordbreaks: Option<Vec<char>>,
    pub exe: Option<String>,
    pub word: Option<String>,
    pub prev_word: Option<String>,
    /// How many of the four options were found with a value.
    pub found: usize,
}

/// The index of the first argument equal to `name`, or the length.
pub open spec fn arg_position(args: Seq<String>, name: Seq<char>, i: int) -> int
    decreases args.len() - i,
{
    if i < 0 || i >= args.len() {
        args.len() as int
    } else if args[i]@ == name {
        i
    } else {
        arg_position(args, name, i + 1)
    }
}

/// The value given to option `name`: the argument after its first occurrence.
pub open spec fn arg_value(args: Seq<String>, name: Seq<char>) -> Option<Seq<char>> {
    let p = arg_position(args, name, 0);
    if p + 1 < args.len() {
        Some(args[p + 1]@)
    } else {
        None
    }
}

fn arg_value_exec(args: &Vec<String>, name: &str) -> (r: Option<String>)
    ensures
        match arg_value(args@, name@) {
            Some(v) => r matches Some(s) && s@ == v,
            None => r is None,
        },
{
    let mut i: usize = 0;
    while i < args.len() && !str_eq(args[i].as_str(), name)
        invariant
            i <= args@.len(),
            arg_position(args@, name@, 0) == arg_position(args@, name@, i as int),
        decreases args@.len() - i,
    {
        i = i + 1;
    }
    if i < args.len() && i + 1 < args.len() {
        Some(args[i + 1].clone())
    } else {
        None
    }
}

fn opt_count(o: bool) -> (r: usize)
    ensures
        r == (if o { 1usize } else { 0usize }),
{
    if o { 1 } else { 0 }
}

/// Reads the options `--wordbreaks`, `--exe`, `--word` and `--prev-word`
/// from the program's arguments (the first being the program).
pub fn parse_completion_args(args: &Vec<String>) -> (r: CompletionArgs)
    ensures
        match arg_value(args@, "--wordbreaks"@) {
            Some(v) => r.wordbreaks matches Some(w) && w@ == v,
            None => r.wordbreaks is None,
        },
        match arg_value(args@, "--exe"@) {
            Some(v) => r.exe matches Some(w) && w@ == v,
            None => r.exe is None,
        },
        match arg_value(args@, "--word"@) {
            Some(v) => r.word matches Some(w) && w@ == v,
            None => r.word is None,
        },
        match arg_value(args@, "--prev-word"@) {
            Some(v) => r.prev_word matches Some(w) && w@ == v,
            None => r.prev_word is None,
        },
        r.found == (if arg_value(args@, "--wordbreaks"@) is Some { 1int } else { 0 }) + (if arg_value(
            args@,
            "--exe"@,
        ) is Some { 1int } else { 0 }) + (if arg_value(args@, "--word"@) is Some { 1int } else { 0 }) + (
        if arg_value(args@, "--prev-word"@) is Some { 1int } else { 0 }),
{
    let wb = arg_value_exec(args, "--wordbreaks");
    let exe = arg_value_exec(args, "--exe");
    let word = arg_value_exec(args, "--word");
    let prev_word = arg_value_exec(args, "--prev-word");
    let found = opt_count(wb.is_some()) + opt_count(exe.is_some()) + opt_count(word.is_some()) + opt_count(
        prev_word.is_some(),
    );
    let wordbreaks = match wb {
        Some(s) => Some(chars_of(s.as_str())),
        None => None,
    };
    CompletionArgs { wordbreaks, exe, word, prev_word, found }
}

/// Whether the arguments are just the program and the options found with
/// their values (else a usage message is due).
pub fn args_well_formed(args: &Vec<String>, parsed: &CompletionArgs) -> (r: bool)
    requires
        parsed.found <= 4,
    ensures
        r == (args@.len() == 1 + parsed.found * 2),
{
    args.len() == 1 + parsed.found * 2
}

fn parse_cursor(s: String) -> (r: Result<usize, CompletionError>)
    ensures
        match spec_parse_decimal(s@, usize::MAX as int) {
            Some(v) => r == Ok::<usize, CompletionError>(v as usize) && 0 <= v <= usize::MAX,
            None => r matches Err(CompletionError::BadEnvVarType(t, f)) && t@ == "64-bit decimal integer"@
                && f@ == s@,
        },
{
    let cs = chars_of(s.as_str());
    proof {
        assert(cs@.subrange(0, cs@.len() as int) =~= s@);
    }
    let bad = "64-bit decimal integer";
    proof {
        reveal_strlit("64-bit decimal integer");
    }
    match parse_decimal(&cs, 0, cs.len(), u64::MAX) {
        None => Err(CompletionError::BadEnvVarType(bad, s)),
        Some(v) => match usize::try_from(v) {
            Ok(u) => Ok(u),
            Err(_) => Err(CompletionError::BadEnvVarType(bad, s)),
        },
    }
}

fn key_of_code(s: String) -> (r: Result<CompletionKey, CompletionError>)
    ensures
        match spec_parse_decimal(s@, 255) {
            None => r matches Err(CompletionError::BadEnvVarType(t, f)) && t@ == "u8"@ && f@ == s@,
            Some(v) => match spec_key_of_char(v as char) {
                Some(k) => r == Ok::<CompletionKey, CompletionError>(k),
                None => r matches Err(CompletionError::BadCompletionKey(b)) && b@ == seq![v as char],
            },
        },
{
    CompletionKey::from_code(s.as_str())
}

/// Whether each word of the input is valid UTF-8.
pub open spec fn words_are_text(b: Seq<u8>) -> bool {
    forall|i: int| 0 <= i < nul_words(b).len() ==> vstd::utf8::valid_utf8(#[trigger] nul_words(b)[i])
}

fn words_to_strings(words: Vec<Vec<u8>>) -> (r: Vec<String>)
    requires
        forall|i: int| 0 <= i < words@.len() ==> vstd::utf8::valid_utf8(#[trigger] words@[i]@),
    ensures
        r@.len() == words@.len(),
        forall|i: int| 0 <= i < words@.len() ==> #[trigger] r@[i]@ == vstd::utf8::decode_utf8(words@[i]@),
{
    let mut out: Vec<String> = Vec::new();
    let mut i: usize = 0;
    while i < words.len()
        invariant
            i <= words@.len(),
            forall|k: int| 0 <= k < words@.len() ==> vstd::utf8::valid_utf8(#[trigger] words@[k]@),
            out@.len() == i,
            forall|k: int| 0 <= k < i ==> #[trigger] out@[k]@ == vstd::utf8::decode_utf8(words@[k]@),
        decreases words@.len() - i,
    {
        let s = utf8_str(words[i].as_slice()).unwrap();
        proof {
            lemma_utf8_text(s, words@[i as int]@);
        }
        out.push(owned(s));
        i = i + 1;
    }
    out
}

/// Whether `COMP_POINT` holds a cursor position.
pub open spec fn point_ok(p: Result<String, EnvVarError>) -> bool {
    p matches Ok(s) && spec_parse_decimal(s@, usize::MAX as int) is Some
}

/// Whether a key variable (`COMP_KEY`, `COMP_TYPE`) is absent or holds the
/// code of a completion key.
pub open spec fn key_var_ok(k: Result<String, EnvVarError>) -> bool {
    match k {
        Err(EnvVarError::NotPresent) => true,
        Err(EnvVarError::NotUnicode(_)) => false,
        Ok(s) => spec_parse_decimal(s@, 255) matches Some(c) && spec_key_of_char(c as char) is Some,
    }
}

/// The error for a variable that is missing or not Unicode.
pub open spec fn var_error(v: Result<String, EnvVarError>, e: CompletionError) -> bool {
    match v {
        Err(EnvVarError::NotPresent) => e == CompletionError::MissingEnvVar,
        Err(EnvVarError::NotUnicode(b)) => e == CompletionError::NotUnicode(b),
        Ok(_) => false,
    }
}

/// The error for `COMP_POINT`: missing, not Unicode, or not a position.
pub open spec fn point_error(p: Result<String, EnvVarError>, e: CompletionError) -> bool {
    match p {
        Ok(s) => e matches CompletionError::BadEnvVarType(t, f) && t@ == "64-bit decimal integer"@ && f@ == s@,
        _ => var_error(p, e),
    }
}

/// The error for a key variable: not Unicode, not a number up to 255, or
/// the code of no completion key.
pub open spec fn key_var_error(k: Result<String, EnvVarError>, e: CompletionError) -> bool {
    match k {
        Err(EnvVarError::NotPresent) => false,
        Err(EnvVarError::NotUnicode(b)) => e == CompletionError::NotUnicode(b),
        Ok(s) => match spec_parse_decimal(s@, 255) {
            None => e matches CompletionError::BadEnvVarType(t, f) && t@ == "u8"@ && f@ == s@,
            Some(c) => e matches CompletionError::BadCompletionKey(b) && b@ == seq![c as char],
        },
    }
}

impl CompletionVars {
    /// The completion request from bash's variables `COMP_LINE`,
    /// `COMP_POINT`, `COMP_KEY` and `COMP_TYPE`, the NUL-terminated words
    /// read from standard input if they are used, and the options passed as
    /// arguments if they are used.
    pub fn from_bash_env(
        comp_line: Result<String, EnvVarError>,
        comp_point: Result<String, EnvVarError>,
        comp_key: Result<String, EnvVarError>,
        comp_type: Result<String, EnvVarError>,
        stdin: Option<Vec<u8>>,
        args: Option<CompletionArgs>,
    ) -> (r: Result<CompletionVars, (&'static str, CompletionError)>)
        requires
            stdin matches Some(b) ==> words_are_text(b@),
        ensures
            comp_line is Err ==> r is Err,
            r matches Ok(v) ==> ({
                &&& comp_line matches Ok(l) && v.line@ == l@
                &&& comp_point matches Ok(p) && spec_parse_decimal(p@, usize::MAX as int) == Some(v.cursor as int)
                &&& match comp_key {
                    Err(EnvVarError::NotPresent) => v.key is None,
                    Ok(k) => spec_parse_decimal(k@, 255) matches Some(c) && v.key == spec_key_of_char(c as char),
                    Err(_) => false,
                }
                &&& match comp_type {
                    Err(EnvVarError::NotPresent) => v.reqtype is None,
                    Ok(k) => spec_parse_decimal(k@, 255) matches Some(c) && v.reqtype == spec_key_of_char(
                        c as char,
                    ),
                    Err(_) => false,
                }
                &&& match stdin {
                    None => v.words is None,
                    Some(b) => v.words matches Some(w) && w@.len() == nul_words(b@).len() && forall|i: int|
                        0 <= i < w@.len() ==> #[trigger] w@[i]@ == vstd::utf8::decode_utf8(nul_words(b@)[i]),
                }
                &&& match args {
                    None => v.wordbreaks is None && v.exe is None && v.word is None && v.prev_word is None,
                    Some(a) => v.wordbreaks == a.wordbreaks && v.exe == a.exe && v.word == a.word
                        && v.prev_word == a.prev_word,
                }
            }),
            r is Ok <==> (comp_line is Ok && point_ok(comp_point) && key_var_ok(comp_key) && key_var_ok(comp_type)),
            r matches Err((n, e)) ==> if comp_line is Err {
                n == "COMP_LINE" && var_error(comp_line, e)
            } else if !point_ok(comp_point) {
                n == "COMP_POINT" && point_error(comp_point, e)
            } else if !key_var_ok(comp_key) {
                n == "COMP_KEY" && key_var_error(comp_key, e)
            } else {
                n == "COMP_TYPE" && key_var_error(comp_type, e)
            },
    {
        let line: String = match comp_line {
            Ok(s) => s,
            Err(EnvVarError::NotPresent) => {
                return Err(("COMP_LINE", CompletionError::MissingEnvVar));
            },
            Err(EnvVarError::NotUnicode(b)) => {
                return Err(("COMP_LINE", CompletionError::NotUnicode(b)));
            },
        };
        let cursor: usize = match comp_point {
            Ok(s) => match parse_cursor(s) {
                Ok(c) => c,
                Err(e) => {
                    return Err(("COMP_POINT", e));
                },
            },
            Err(EnvVarError::NotPresent) => {
                return Err(("COMP_POINT", CompletionError::MissingEnvVar));
            },
            Err(EnvVarError::NotUnicode(b)) => {
                return Err(("COMP_POINT", CompletionError::NotUnicode(b)));
            },
        };
        let key: Option<CompletionKey> = match comp_key {
            Ok(s) => match key_of_code(s) {
                Ok(k) => Some(k),
                Err(e) => {
                    return Err(("COMP_KEY", e));
                },
            },
            Err(EnvVarError::NotPresent) => None,
            Err(EnvVarError::NotUnicode(b)) => {
                return Err(("COMP_KEY", CompletionError::NotUnicode(b)));
            },
        };
        let reqtype: Option<CompletionKey> = match comp_type {
            Ok(s) => match key_of_code(s) {
                Ok(k) => Some(k),
                Err(e) => {
                    return Err(("COMP_TYPE", e));
                },
            },
            Err(EnvVarError::NotPresent) => None,
            Err(EnvVarError::NotUnicode(b)) => {
                return Err(("COMP_TYPE", CompletionError::NotUnicode(b)));
            },
        };
        let words: Option<Vec<String>> = match stdin {
            None => None,
            Some(b) => {
                let ws = split_nul_words(b.as_slice());
                proof {
                    assert forall|i: int| 0 <= i < ws@.len() implies vstd::utf8::valid_utf8(#[trigger] ws@[i]@) by {
                        assert(ws@.map_values(|w: Vec<u8>| w@)[i] == ws@[i]@);
                    }
                }
                let strs = words_to_strings(ws);
                proof {
                    assert forall|i: int| 0 <= i < strs@.len() implies #[trigger] strs@[i]@ == vstd::utf8::decode_utf8(
                        nul_words(b@)[i],
                    ) by {
                        assert(ws@.map_values(|w: Vec<u8>| w@)[i] == ws@[i]@);
                    }
                }
                Some(strs)
            },
        };
        let (wordbreaks, exe, word, prev_word) = match args {
            None => (None, None, None, None),
            Some(a) => (a.wordbreaks, a.exe, a.word, a.prev_word),
        };
        let r = CompletionVars { line, cursor, key, reqtype, wordbreaks, words, exe, word, prev_word };
        Ok(r)
    }
}


// ---------------------------------------------------------------------------
// Flags
// ---------------------------------------------------------------------------

/// Whether the command line holds a flag, by its short character `s` or
/// its long form `l`: as the last word, or followed by a space.
pub open spec fn spec_has_flag(line: Seq<char>, s: char, l: Seq<char>) -> bool {
    let long = seq![' '] + l;
    let short = seq![' ', '-', s];
    ||| seq_ends_with(line, long)
    ||| seq_contains(line, long.push(' '))
    ||| seq_ends_with(line, short)
    ||| seq_contains(line, short.push(' '))
}

/// Whether a flag (short and long form) is offered for the current word:
/// it is not on the line yet, and a word that starts with `--` is just `--`
/// or begins the long form.
pub open spec fn offers_flag(line: Seq<char>, cw: Seq<char>, f: (Seq<char>, Seq<char>)) -> bool {
    &&& !spec_has_flag(line, f.0[1], f.1)
    &&& (!seq_starts_with(cw, "--"@) || cw.len() == 2 || seq_starts_with(f.1, cw))
}

/// The long forms of the flags offered, in order.
pub open spec fn offered_flags(line: Seq<char>, cw: Seq<char>, flags: Seq<(Seq<char>, Seq<char>)>) -> Seq<Seq<char>>
    decreases flags.len(),
{
    if flags.len() == 0 {
        Seq::empty()
    } else {
        offered_flags(line, cw, flags.drop_last()) + if offers_flag(line, cw, flags.last()) {
            seq![flags.last().1]
        } else {
            Seq::empty()
        }
    }
}

pub open spec fn flag_views(flags: Seq<(&str, &str)>) -> Seq<(Seq<char>, Seq<char>)> {
    flags.map_values(|f: (&str, &str)| (f.0@, f.1@))
}

/// The views of a sequence of texts.
pub open spec fn views(s: Seq<&str>) -> Seq<Seq<char>> {
    s.map_values(|x: &str| x@)
}

pub open spec fn string_views(s: Seq<String>) -> Seq<Seq<char>> {
    s.map_values(|x: String| x@)
}

impl CompletionVars {
    pub fn has_flag(&self, s: char, l: &str) -> (r: bool)
        ensures
            r == spec_has_flag(self.line@, s, l@),
    {
        let mut buf = String::new();
        push_char(&mut buf, ' ');
        buf.append(l);
        proof {
            assert(buf@ =~= seq![' '] + l@);
        }
        if str_ends_with(self.line.as_str(), buf.as_str()) {
            return true;
        }
        push_char(&mut buf, ' ');
        if str_contains(self.line.as_str(), buf.as_str()) {
            return true;
        }
        let mut short = String::new();
        push_char(&mut short, ' ');
        push_char(&mut short, '-');
        push_char(&mut short, s);
        proof {
            assert(short@ =~= seq![' ', '-', s]);
        }
        if str_ends_with(self.line.as_str(), short.as_str()) {
            return true;
        }
        push_char(&mut short, ' ');
        str_contains(self.line.as_str(), short.as_str())
    }

    /// Whether flags are suggested: there is a current word, and it starts
    /// with `-` where `only_on_dash` asks so.
    pub open spec fn suggests(&self, only_on_dash: bool) -> bool {
        self.word matches Some(w) && (!only_on_dash || seq_starts_with(w@, "-"@))
    }

    /// The long forms of the flags to suggest for the current word.
    pub fn suggest_flag<'a>(&self, only_on_dash: bool, flags: &[(&'a str, &'a str)]) -> (r: Vec<&'a str>)
        requires
            self.suggests(only_on_dash) ==> forall|i: int| 0 <= i < flags@.len() ==> (#[trigger] flags@[i]).0@.len()
                >= 2,
        ensures
            self.suggests(only_on_dash) ==> views(r@) == offered_flags(self.line@, self.word.unwrap()@, flag_views(flags@)),
            !self.suggests(only_on_dash) ==> r@.len() == 0,
    {
        let cword = match &self.word {
            None => {
                return Vec::new();
            },
            Some(w) => w,
        };
        if only_on_dash && !str_starts_with(cword.as_str(), "-") {
            proof {
                reveal_strlit("-");
            }
            return Vec::new();
        }
        proof {
            reveal_strlit("-");
            reveal_strlit("--");
        }
        let dashes = str_starts_with(cword.as_str(), "--");
        let cw_len = chars_of(cword.as_str()).len();
        let mut out: Vec<&'a str> = Vec::new();
        let mut i: usize = 0;
        while i < flags.len()
            invariant
                i <= flags@.len(),
                self.word == Some(*cword),
                self.suggests(only_on_dash),
                forall|k: int| 0 <= k < flags@.len() ==> (#[trigger] flags@[k]).0@.len() >= 2,
                dashes == seq_starts_with(cword@, "--"@),
                cw_len == cword@.len(),
                views(out@) == offered_flags(self.line@, cword@, flag_views(flags@.take(i as int))),
            decreases flags@.len() - i,
        {
            let (short, long) = flags[i];
            let sc = chars_of(short);
            let c1 = sc[1];
            let keep = !self.has_flag(c1, long) && (!dashes || cw_len == 2 || str_starts_with(long, cword.as_str()));
            proof {
                assert(flag_views(flags@.take(i + 1)).drop_last() =~= flag_views(flags@.take(i as int)));
                assert(flag_views(flags@.take(i + 1)).last() == (short@, long@));
            }
            if keep {
                out.push(long);
                proof {
                    assert(views(out@) =~= views(out@.drop_last()) + seq![long@]);
                }
            }
            i = i + 1;
        }
        proof {
            assert(flags@.take(flags@.len() as int) =~= flags@);
        }
        out
    }
}

/// The elements of `v` on which `f` does not answer `true`.
pub open spec fn kept<F: Fn(&str) -> bool>(v: Seq<&str>, f: F) -> Seq<&str>
    decreases v.len(),
{
    if v.len() == 0 {
        Seq::empty()
    } else {
        kept(v.drop_last(), f) + if f.ensures((v.last(),), true) {
            Seq::empty()
        } else {
            seq![v.last()]
        }
    }
}

/// Removes the elements on which `f` answers `true`, keeping the order of
/// the others. `f` must answer the same on the same text.
pub fn remove_matching<'a, F: Fn(&str) -> bool>(v: &mut Vec<&'a str>, f: F)
    requires
        forall|s: &str| f.requires((s,)),
        forall|s: &str, a: bool, b: bool| f.ensures((s,), a) && f.ensures((s,), b) ==> a == b,
    ensures
        final(v)@ == kept(old(v)@, f),
        forall|i: int| 0 <= i < old(v)@.len() ==> f.ensures((#[trigger] old(v)@[i],), true) || f.ensures(
            (old(v)@[i],),
            false,
        ),
{
    let ghost orig = v@;
    let mut out: Vec<&'a str> = Vec::new();
    let mut i: usize = 0;
    while i < v.len()
        invariant
            i <= v@.len(),
            v@ == orig,
            forall|s: &str| f.requires((s,)),
            forall|s: &str, a: bool, b: bool| f.ensures((s,), a) && f.ensures((s,), b) ==> a == b,
            out@ == kept(orig.take(i as int), f),
            forall|k: int| 0 <= k < i ==> f.ensures((#[trigger] orig[k],), true) || f.ensures((orig[k],), false),
        decreases v@.len() - i,
    {
        let x = v[i];
        let m = f(x);
        proof {
            assert(orig.take(i + 1).drop_last() =~= orig.take(i as int));
            assert(orig.take(i + 1).last() == x);
        }
        if !m {
            out.push(x);
        }
        i = i + 1;
    }
    proof {
        assert(orig.take(orig.len() as int) =~= orig);
    }
    *v = out;
}

// ---------------------------------------------------------------------------
// Escaping
// ---------------------------------------------------------------------------

/// How a completion is quoted.
#[derive(Debug, Clone, Copy, PartialEq, Eq)]
pub enum QuoteStyle {
    Unquoted,
    Single,
    Double,
}

pub open spec fn is_plain_char(c: char) -> bool {
    is_ascii_alnum(c) || c == '-' || c == '_' || c == '.' || c == '/' || c == ':'
}

/// `s` with a backslash before each character other than ASCII letters,
/// digits and `-_./:`.
pub open spec fn spec_bash_escape(s: Seq<char>) -> Seq<char>
    decreases s.len(),
{
    if s.len() == 0 {
        Seq::empty()
    } else {
        spec_bash_escape(s.drop_last()) + if is_plain_char(s.last()) {
            seq![s.last()]
        } else {
            seq!['\\', s.last()]
        }
    }
}

proof fn lemma_bash_escape_reads_back(s: Seq<char>, plain: spec_fn(char) -> bool)
    requires
        forall|c: char| #[trigger] plain(c) == is_plain_char(c),
    ensures
        read_escaped(spec_bash_escape(s), '\\', plain) == Some(s),
    decreases s.len(),
{
    if s.len() > 0 {
        let c = s.last();
        lemma_bash_escape_reads_back(s.drop_last(), plain);
        let piece = if is_plain_char(c) { seq![c] } else { seq!['\\', c] };
        assert(read_escaped(Seq::<char>::empty(), '\\', plain) == Some(Seq::<char>::empty()));
        if is_plain_char(c) {
            assert(plain(c));
            assert(piece.skip(1) =~= Seq::<char>::empty());
        } else {
            assert(piece.skip(2) =~= Seq::<char>::empty());
        }
        assert(read_escaped(piece, '\\', plain) == Some(seq![c]));
        lemma_read_escaped_concat(spec_bash_escape(s.drop_last()), piece, '\\', plain);
        assert(s.drop_last() + seq![c] =~= s);
    }
}

/// An escaped completion is one unquoted bash word that reads back as the
/// completion: every character other than an ASCII letter or digit or one of
/// `-_./:` is preceded by a backslash, so no shell metacharacter such as
/// `( ) & ; |` or white space stands unescaped.
pub proof fn law_bash_escape_reads_back(s: Seq<char>)
    ensures
        read_escaped(
            spec_bash_escape(s),
            '\\',
            |c: char|
                ('a' <= c && c <= 'z') || ('A' <= c && c <= 'Z') || ('0' <= c && c <= '9') || c == '-' || c == '_'
                    || c == '.' || c == '/' || c == ':',
        ) == Some(s),
{
    let plain = |c: char|
        ('a' <= c && c <= 'z') || ('A' <= c && c <= 'Z') || ('0' <= c && c <= '9') || c == '-' || c == '_' || c
            == '.' || c == '/' || c == ':';
    lemma_bash_escape_reads_back(s, plain);
}

/// Escapes a word for bash, unquoted (the quoted styles are not supported).
pub fn bash_escape(s: String, style: QuoteStyle) -> (r: String)
    requires
        style == QuoteStyle::Unquoted,
    ensures
        r@ == spec_bash_escape(s@),
{
    let cs = chars_of(s.as_str());
    let mut out = String::new();
    let mut i: usize = 0;
    while i < cs.len()
        invariant
            i <= cs@.len(),
            cs@ == s@,
            out@ == spec_bash_escape(s@.take(i as int)),
        decreases cs@.len() - i,
    {
        let c = cs[i];
        proof {
            assert(s@.take(i + 1).drop_last() =~= s@.take(i as int));
            assert(s@.take(i + 1).last() == c);
        }
        if is_ascii_alphanumeric(c) || c == '-' || c == '_' || c == '.' || c == '/' || c == ':' {
            push_char(&mut out, c);
        } else {
            push_char(&mut out, '\\');
            push_char(&mut out, c);
            proof {
                assert(out@ =~= spec_bash_escape(s@.take(i as int)) + seq!['\\', c]);
            }
        }
        i = i + 1;
    }
    proof {
        assert(s@.take(s@.len() as int) =~= s@);
    }
    out
}


// ---------------------------------------------------------------------------
// Candidates
// ---------------------------------------------------------------------------

/// The candidates in `s` that the current word begins (all, for an empty word).
pub open spec fn with_prefix(s: Seq<Seq<char>>, cw: Seq<char>) -> Seq<Seq<char>>
    decreases s.len(),
{
    if s.len() == 0 {
        Seq::empty()
    } else {
        with_prefix(s.drop_last(), cw) + if cw.len() == 0 || seq_starts_with(s.last(), cw) {
            seq![s.last()]
        } else {
            Seq::empty()
        }
    }
}

pub open spec fn spaced(s: Seq<char>) -> Seq<char> {
    s.push(' ')
}

fn spaced_string(s: &str) -> (r: String)
    ensures
        r@ == spaced(s@),
{
    let mut out = owned(s);
    push_char(&mut out, ' ');
    out
}

/// A lab of the server, for completion: identifier, title, and the
/// identifier and label of each node.
pub type LabNodes = (String, String, Vec<(String, String)>);

/// The lab and the nodes of it that completion offers: all of them where
/// `all`, else only a running lab of the user with its running nodes.
pub open spec fn spec_lab_data(username: Seq<char>, all: bool, topo: LabTopology) -> bool {
    all || (username == topo.owner@ && topo.state.is_active())
}

pub open spec fn offered_nodes(all: bool, nodes: Seq<crate::rest_types::labeled::Data<crate::rest_types::NodeDescription>>) -> Seq<(Seq<char>, Seq<char>)>
    decreases nodes.len(),
{
    if nodes.len() == 0 {
        Seq::empty()
    } else {
        let n = nodes.last();
        offered_nodes(all, nodes.drop_last()) + if all || n.data.state.is_active() {
            seq![(n.id@, n.data.label@)]
        } else {
            Seq::empty()
        }
    }
}

pub open spec fn pair_views(v: Seq<(String, String)>) -> Seq<(Seq<char>, Seq<char>)> {
    v.map_values(|p: (String, String)| (p.0@, p.1@))
}

/// The lab's identifier, title and offered nodes, where completion offers it.
pub fn lab_data(username: &str, all: bool, id: String, topo: LabTopology) -> (r: Option<LabNodes>)
    ensures
        spec_lab_data(username@, all, topo) ==> (r matches Some(l) && l.0@ == id@ && l.1@ == topo.title@
            && pair_views(l.2@) == offered_nodes(all, topo.nodes@)),
        !spec_lab_data(username@, all, topo) ==> r is None,
{
    if !(all || (str_eq(username, topo.owner.as_str()) && topo.state.active())) {
        return None;
    }
    let ghost tnodes = topo.nodes@;
    let LabTopology { title, nodes, .. } = topo;
    let mut out: Vec<(String, String)> = Vec::new();
    let mut i: usize = 0;
    while i < nodes.len()
        invariant
            i <= nodes@.len(),
            nodes@ == tnodes,
            pair_views(out@) == offered_nodes(all, tnodes.take(i as int)),
        decreases nodes@.len() - i,
    {
        let n = &nodes[i];
        proof {
            assert(tnodes.take(i + 1).drop_last() =~= tnodes.take(i as int));
            assert(tnodes.take(i + 1).last() == tnodes[i as int]);
        }
        if all || n.data.state.active() {
            out.push((n.id.clone(), n.data.label.clone()));
            proof {
                assert(pair_views(out@) =~= pair_views(out@.drop_last()) + seq![(n.id@, n.data.label@)]);
            }
        }
        i = i + 1;
    }
    proof {
        assert(tnodes.take(tnodes.len() as int) =~= tnodes);
    }
    Some((id, title, out))
}

/// What completion is asked for.
#[derive(Debug, Clone, Copy, PartialEq, Eq)]
pub enum CompletionTarget {
    /// The sub-command after the program's name.
    Root,
    /// The flags of `list`.
    List,
    /// The arguments of `open`.
    Open,
    /// A case completion does not handle.
    Unsupported,
}

impl CompletionVars {
    /// Whether bash passed the words, the current word and the word before.
    pub open spec fn complete_request(&self) -> bool {
        self.word is Some && self.prev_word is Some && self.words is Some
    }

    pub open spec fn spec_target(&self) -> CompletionTarget {
        let words = self.words.unwrap()@;
        if seq_ends_with(self.prev_word.unwrap()@, "cmlterm"@) {
            CompletionTarget::Root
        } else if words.len() > 1 && words[1]@ == "list"@ {
            CompletionTarget::List
        } else if words.len() > 1 && words[1]@ == "open"@ {
            CompletionTarget::Open
        } else {
            CompletionTarget::Unsupported
        }
    }

    pub fn target(&self) -> (r: CompletionTarget)
        requires
            self.complete_request(),
        ensures
            r == self.spec_target(),
    {
        let pword = self.prev_word.as_ref().unwrap();
        let words = self.words.as_ref().unwrap();
        if str_ends_with(pword.as_str(), "cmlterm") {
            CompletionTarget::Root
        } else if words.len() > 1 && str_eq(words[1].as_str(), "list") {
            CompletionTarget::List
        } else if words.len() > 1 && str_eq(words[1].as_str(), "open") {
            CompletionTarget::Open
        } else {
            CompletionTarget::Unsupported
        }
    }
}

/// The sub-commands that the current word begins, each followed by a space.
pub open spec fn root_candidates(cw: Seq<char>) -> Seq<Seq<char>> {
    with_prefix(seq!["list"@, "open"@, "expose"@], cw).map_values(|s: Seq<char>| spaced(s))
}

pub fn complete_root(cword: &str) -> (r: Vec<String>)
    ensures
        string_views(r@) == root_candidates(cword@),
{
    let names = ["list", "open", "expose"];
    let ghost all = seq!["list"@, "open"@, "expose"@];
    proof {
        assert(names@.map_values(|x: &str| x@) =~= all);
    }
    let empty = chars_of(cword).len() == 0;
    let mut out: Vec<String> = Vec::new();
    let mut i: usize = 0;
    while i < 3
        invariant
            i <= 3,
            names@.len() == 3,
            names@.map_values(|x: &str| x@) == all,
            empty == (cword@.len() == 0),
            string_views(out@) == with_prefix(all.take(i as int), cword@).map_values(|s: Seq<char>| spaced(s)),
        decreases 3 - i,
    {
        let n = names[i];
        proof {
            assert(all.take(i + 1).drop_last() =~= all.take(i as int));
            assert(all[i as int] == n@);
        }
        if empty || str_starts_with(n, cword) {
            out.push(spaced_string(n));
            proof {
                assert(string_views(out@) =~= string_views(out@.drop_last()) + seq![spaced(n@)]);
            }
        }
        proof {
            assert(with_prefix(all.take(i + 1), cword@).map_values(|s: Seq<char>| spaced(s)) =~= with_prefix(
                all.take(i as int),
                cword@,
            ).map_values(|s: Seq<char>| spaced(s)) + if cword@.len() == 0 || seq_starts_with(n@, cword@) {
                seq![spaced(n@)]
            } else {
                Seq::empty()
            });
        }
        i = i + 1;
    }
    proof {
        assert(all.take(3) =~= all);
    }
    out
}


/// Whether one of the words is `x`.
pub open spec fn has_word(words: Seq<String>, x: Seq<char>) -> bool {
    exists|i: int| 0 <= i < words.len() && (#[trigger] words[i])@ == x
}

fn has_word_exec(words: &Vec<String>, x: &str) -> (r: bool)
    ensures
        r == has_word(words@, x@),
{
    let mut i: usize = 0;
    while i < words.len()
        invariant
            i <= words@.len(),
            forall|k: int| 0 <= k < i ==> (#[trigger] words@[k])@ != x@,
        decreases words@.len() - i,
    {
        if str_eq(words[i].as_str(), x) {
            return true;
        }
        i = i + 1;
    }
    false
}

/// `s` without the elements equal to `x`.
pub open spec fn without(s: Seq<Seq<char>>, x: Seq<char>) -> Seq<Seq<char>>
    decreases s.len(),
{
    if s.len() == 0 {
        Seq::empty()
    } else {
        without(s.drop_last(), x) + if s.last() == x {
            Seq::empty()
        } else {
            seq![s.last()]
        }
    }
}

/// Removing by a test for equality with `x` removes the elements equal to `x`.
proof fn lemma_kept_without<F: Fn(&str) -> bool>(v: Seq<&str>, f: F, x: Seq<char>)
    requires
        forall|s: &str, b: bool| f.ensures((s,), b) ==> b == (s@ == x),
        forall|i: int| 0 <= i < v.len() ==> f.ensures((#[trigger] v[i],), true) || f.ensures((v[i],), false),
    ensures
        views(kept(v, f)) == without(views(v), x),
    decreases v.len(),
{
    if v.len() > 0 {
        let l = v.last();
        assert(f.ensures((v[v.len() - 1],), true) || f.ensures((v[v.len() - 1],), false));
        assert forall|i: int| 0 <= i < v.drop_last().len() implies f.ensures((#[trigger] v.drop_last()[i],), true)
            || f.ensures((v.drop_last()[i],), false) by {
            assert(v.drop_last()[i] == v[i]);
        }
        lemma_kept_without(v.drop_last(), f, x);
        assert(views(v).drop_last() =~= views(v.drop_last()));
        if f.ensures((l,), true) {
            assert(views(kept(v, f)) =~= views(kept(v.drop_last(), f)));
        } else {
            assert(views(kept(v, f)) =~= views(kept(v.drop_last(), f)) + seq![l@]);
        }
    }
}

pub open spec fn list_flags() -> Seq<(Seq<char>, Seq<char>)> {
    seq![("-a"@, "--all"@), ("-j"@, "--json"@), ("-v"@, "--vnc"@), ("-l"@, "--links"@)]
}

impl CompletionVars {
    /// The flags offered for `list`, each followed by a space: `--vnc` and
    /// `--links` exclude each other.
    pub open spec fn list_candidates(&self) -> Seq<Seq<char>> {
        let words = self.words.unwrap()@;
        let is_vnc = has_word(words, "-v"@) || has_word(words, "--vnc"@);
        let is_links = has_word(words, "-l"@) || has_word(words, "--links"@);
        let c = offered_flags(self.line@, self.word.unwrap()@, list_flags());
        let c1 = if is_vnc { without(c, "--links"@) } else { c };
        let c2 = if is_links { without(c1, "--vnc"@) } else { c1 };
        c2.map_values(|x: Seq<char>| spaced(x))
    }

    pub fn complete_list(&self) -> (r: Vec<String>)
        requires
            self.word is Some,
            self.words is Some,
        ensures
            string_views(r@) == self.list_candidates(),
    {
        let words = self.words.as_ref().unwrap();
        let is_vnc = has_word_exec(words, "-v") || has_word_exec(words, "--vnc");
        let is_links = has_word_exec(words, "-l") || has_word_exec(words, "--links");
        let flags = [("-a", "--all"), ("-j", "--json"), ("-v", "--vnc"), ("-l", "--links")];
        proof {
            reveal_strlit("-a");
            reveal_strlit("-j");
            reveal_strlit("-v");
            reveal_strlit("-l");
            assert(flag_views(flags@) =~= list_flags());
        }
        let mut c = self.suggest_flag(false, flags.as_slice());
        let ghost c0 = views(c@);
        if is_vnc {
            let ghost before = c@;
            let f = |x: &str| -> (b: bool)
                ensures
                    b == (x@ == "--links"@),
                { str_eq(x, "--links") };
            remove_matching(&mut c, f);
            proof {
                lemma_kept_without(before, f, "--links"@);
            }
        }
        let ghost c1 = views(c@);
        if is_links {
            let ghost before = c@;
            let f = |x: &str| -> (b: bool)
                ensures
                    b == (x@ == "--vnc"@),
                { str_eq(x, "--vnc") };
            remove_matching(&mut c, f);
            proof {
                lemma_kept_without(before, f, "--vnc"@);
            }
        }
        let mut out: Vec<String> = Vec::new();
        let mut i: usize = 0;
        while i < c.len()
            invariant
                i <= c@.len(),
                string_views(out@) == views(c@).take(i as int).map_values(|x: Seq<char>| spaced(x)),
            decreases c@.len() - i,
        {
            let ghost prev = out@;
            out.push(spaced_string(c[i]));
            proof {
                assert(views(c@)[i as int] == c@[i as int]@);
                assert(string_views(out@) =~= string_views(prev).push(spaced(c@[i as int]@)));
                assert(views(c@).take(i + 1).map_values(|x: Seq<char>| spaced(x)) =~= views(c@).take(
                    i as int,
                ).map_values(|x: Seq<char>| spaced(x)).push(spaced(c@[i as int]@)));
            }
            i = i + 1;
        }
        proof {
            assert(views(c@).take(c@.len() as int) =~= views(c@));
        }
        out
    }
}


// ---------------------------------------------------------------------------
// Completing `open`
// ---------------------------------------------------------------------------

pub open spec fn slashed(x: Seq<char>) -> Seq<char> {
    seq!['/'] + x + seq!['/']
}

/// `/id/` and `/title/` of each lab, escaped.
pub open spec fn lab_names(labs: Seq<LabNodes>) -> Seq<Seq<char>>
    decreases labs.len(),
{
    if labs.len() == 0 {
        Seq::empty()
    } else {
        lab_names(labs.drop_last()) + seq![
            spec_bash_escape(slashed(labs.last().0@)),
            spec_bash_escape(slashed(labs.last().1@)),
        ]
    }
}

/// `front` then the identifier, and `front` then the label, of each node, escaped.
pub open spec fn node_names(front: Seq<char>, nodes: Seq<(String, String)>) -> Seq<Seq<char>>
    decreases nodes.len(),
{
    if nodes.len() == 0 {
        Seq::empty()
    } else {
        node_names(front, nodes.drop_last()) + seq![
            spec_bash_escape(front + nodes.last().0@),
            spec_bash_escape(front + nodes.last().1@),
        ]
    }
}

/// The first lab whose identifier or title is `d`, or the number of labs.
pub open spec fn first_lab(labs: Seq<LabNodes>, d: Seq<char>, i: int) -> int
    decreases labs.len() - i,
{
    if i < 0 || i >= labs.len() {
        labs.len() as int
    } else if labs[i].0@ == d || labs[i].1@ == d {
        i
    } else {
        first_lab(labs, d, i + 1)
    }
}

/// The lab paths offered for a word that is empty or starts with `/`: the
/// labs, or, once the word holds `/lab/`, the nodes of that lab.
pub open spec fn open_lab_part(cw: Seq<char>, labs: Seq<LabNodes>) -> Seq<Seq<char>> {
    if !(cw.len() == 0 || seq_starts_with(cw, "/"@)) {
        Seq::empty()
    } else if cw.len() == 0 {
        lab_names(labs)
    } else {
        let j = crate::api::find_char(cw, '/', 1);
        if j >= cw.len() {
            lab_names(labs)
        } else {
            let d = cw.subrange(1, j);
            let k = first_lab(labs, d, 0);
            if k >= labs.len() {
                Seq::empty()
            } else {
                node_names(slashed(d), labs[k].2@)
            }
        }
    }
}

/// The console keys offered (each followed by a space) for a word that is
/// empty or starts with a letter or digit.
pub open spec fn open_key_part(cw: Seq<char>, keys: Seq<String>) -> Seq<Seq<char>> {
    if cw.len() == 0 || spec_is_alphanumeric(cw[0]) {
        string_views(keys).map_values(|x: Seq<char>| spaced(x))
    } else {
        Seq::empty()
    }
}

pub open spec fn open_flags() -> Seq<(Seq<char>, Seq<char>)> {
    seq![("-b"@, "--boot"@)]
}

impl CompletionVars {
    /// Whether `open` offers nodes: that is, with `-b`/`--boot` given,
    /// also nodes not running.
    pub fn open_show_all(&self) -> (r: bool)
        ensures
            r == spec_has_flag(self.line@, 'b', "--boot"@),
    {
        self.has_flag('b', "--boot")
    }

    /// Whether `open` needs the labs of the server: for an empty word or one
    /// that starts with `/`.
    pub fn open_wants_labs(&self) -> (r: bool)
        requires
            self.word is Some,
        ensures
            r == (self.word.unwrap()@.len() == 0 || seq_starts_with(self.word.unwrap()@, "/"@)),
    {
        let w = self.word.as_ref().unwrap();
        chars_of(w.as_str()).len() == 0 || str_starts_with(w.as_str(), "/")
    }

    /// The candidates for `open`, before those that the word does not begin
    /// are dropped: the flag for a word starting with `-`, lab paths, and
    /// console keys.
    pub open spec fn open_candidates(&self, keys: Seq<String>, labs: Seq<LabNodes>) -> Seq<Seq<char>> {
        let cw = self.word.unwrap()@;
        let flags = if seq_starts_with(cw, "-"@) {
            offered_flags(self.line@, cw, open_flags())
        } else {
            Seq::empty()
        };
        flags + open_lab_part(cw, labs) + open_key_part(cw, keys)
    }

    /// Completes the arguments of `open`, given the console keys and the
    /// labs (with their nodes) of the server.
    pub fn complete_open(&self, keys: Vec<String>, labs: Vec<LabNodes>) -> (r: Vec<String>)
        requires
            self.word is Some,
        ensures
            string_views(r@) == with_prefix(self.open_candidates(keys@, labs@), self.word.unwrap()@),
    {
        let cword = self.word.as_ref().unwrap();
        let cw = chars_of(cword.as_str());
        let ghost cwv = cword@;
        proof {
            reveal_strlit("-");
            reveal_strlit("/");
            reveal_strlit("-b");
        }
        let mut completes: Vec<String> = Vec::new();
        let dash = str_starts_with(cword.as_str(), "-");
        if dash {
            let flags = [("-b", "--boot")];
            proof {
                assert(flag_views(flags@) =~= open_flags());
            }
            let fl = self.suggest_flag(true, flags.as_slice());
            let mut i: usize = 0;
            while i < fl.len()
                invariant
                    i <= fl@.len(),
                    string_views(completes@) == views(fl@).take(i as int),
                decreases fl@.len() - i,
            {
                let ghost prev = completes@;
                completes.push(owned(fl[i]));
                proof {
                    assert(views(fl@)[i as int] == fl@[i as int]@);
                    assert(string_views(completes@) =~= string_views(prev).push(fl@[i as int]@));
                    assert(views(fl@).take(i + 1) =~= views(fl@).take(i as int).push(fl@[i as int]@));
                }
                i = i + 1;
            }
            proof {
                assert(views(fl@).take(fl@.len() as int) =~= views(fl@));
            }
        }
        let ghost flag_part = string_views(completes@);
        assert(flag_part == (if seq_starts_with(cwv, "-"@) {
            offered_flags(self.line@, cwv, open_flags())
        } else {
            Seq::empty()
        }));
        let wants = cw.len() == 0 || str_starts_with(cword.as_str(), "/");
        if wants {
            let slash = if cw.len() == 0 {
                cw.len()
            } else {
                crate::api::find_char_exec(&cw, '/', 1)
            };
            if slash >= cw.len() {
                push_lab_names(&mut completes, &labs);
            } else {
                let d = cword.as_str().substring_char(1, slash);
                let mut k: usize = 0;
                while k < labs.len() && !(str_eq(labs[k].0.as_str(), d) || str_eq(labs[k].1.as_str(), d))
                    invariant
                        k <= labs@.len(),
                        first_lab(labs@, d@, 0) == first_lab(labs@, d@, k as int),
                    decreases labs@.len() - k,
                {
                    k = k + 1;
                }
                if k < labs.len() {
                    let mut front = String::new();
                    push_char(&mut front, '/');
                    front.append(d);
                    push_char(&mut front, '/');
                    proof {
                        assert(front@ =~= slashed(d@));
                    }
                    push_node_names(&mut completes, front.as_str(), &labs[k].2);
                }
            }
        }
        let ghost lab_part = string_views(completes@).skip(flag_part.len() as int);
        proof {
            assert(string_views(completes@) =~= flag_part + lab_part);
            assert(lab_part == open_lab_part(cwv, labs@));
        }
        let keyed = cw.len() == 0 || is_alphanumeric(cw[0]);
        if keyed {
            let mut i: usize = 0;
            while i < keys.len()
                invariant
                    i <= keys@.len(),
                    string_views(completes@) == flag_part + lab_part + string_views(keys@).take(i as int).map_values(
                        |x: Seq<char>| spaced(x),
                    ),
                decreases keys@.len() - i,
            {
                let ghost prev = completes@;
                completes.push(spaced_string(keys[i].as_str()));
                proof {
                    assert(string_views(keys@)[i as int] == keys@[i as int]@);
                    assert(string_views(keys@).take(i + 1).map_values(|x: Seq<char>| spaced(x)) =~= string_views(
                        keys@,
                    ).take(i as int).map_values(|x: Seq<char>| spaced(x)).push(spaced(keys@[i as int]@)));
                    assert(string_views(completes@) =~= string_views(prev).push(spaced(keys@[i as int]@)));
                }
                i = i + 1;
            }
            proof {
                assert(string_views(keys@).take(keys@.len() as int) =~= string_views(keys@));
            }
        } else {
            proof {
                assert(string_views(completes@) =~= flag_part + lab_part + Seq::<Seq<char>>::empty());
            }
        }
        let ghost all = string_views(completes@);
        assert(all == self.open_candidates(keys@, labs@));
        let empty = cw.len() == 0;
        let mut out: Vec<String> = Vec::new();
        let mut i: usize = 0;
        while i < completes.len()
            invariant
                i <= completes@.len(),
                all == string_views(completes@),
                empty == (cwv.len() == 0),
                cwv == cword@,
                string_views(out@) == with_prefix(all.take(i as int), cwv),
            decreases completes@.len() - i,
        {
            let c = &completes[i];
            proof {
                assert(all.take(i + 1).drop_last() =~= all.take(i as int));
                assert(all.take(i + 1).last() == c@);
            }
            if empty || str_starts_with(c.as_str(), cword.as_str()) {
                let ghost prev = out@;
                out.push(c.clone());
                proof {
                    assert(string_views(out@) =~= string_views(prev).push(c@));
                }
            }
            i = i + 1;
        }
        proof {
            assert(all.take(all.len() as int) =~= all);
        }
        out
    }
}

fn push_escaped(out: &mut Vec<String>, front: &str, x: &str)
    ensures
        string_views(final(out)@) == string_views(old(out)@).push(spec_bash_escape(front@ + x@)),
{
    let mut s = owned(front);
    s.append(x);
    let e = bash_escape(s, QuoteStyle::Unquoted);
    let ghost prev = out@;
    out.push(e);
    proof {
        assert(string_views(out@) =~= string_views(prev).push(e@));
    }
}

fn push_lab_names(out: &mut Vec<String>, labs: &Vec<LabNodes>)
    ensures
        string_views(final(out)@) == string_views(old(out)@) + lab_names(labs@),
{
    let ghost base = string_views(out@);
    let mut i: usize = 0;
    while i < labs.len()
        invariant
            i <= labs@.len(),
            string_views(out@) == base + lab_names(labs@.take(i as int)),
        decreases labs@.len() - i,
    {
        let mut a = String::new();
        push_char(&mut a, '/');
        a.append(labs[i].0.as_str());
        push_char(&mut a, '/');
        let mut b = String::new();
        push_char(&mut b, '/');
        b.append(labs[i].1.as_str());
        push_char(&mut b, '/');
        proof {
            assert(a@ =~= slashed(labs@[i as int].0@));
            assert(b@ =~= slashed(labs@[i as int].1@));
            assert(labs@.take(i + 1).drop_last() =~= labs@.take(i as int));
        }
        let ea = bash_escape(a, QuoteStyle::Unquoted);
        let eb = bash_escape(b, QuoteStyle::Unquoted);
        let ghost prev = out@;
        out.push(ea);
        out.push(eb);
        proof {
            assert(string_views(out@) =~= string_views(prev) + seq![ea@, eb@]);
        }
        i = i + 1;
    }
    proof {
        assert(labs@.take(labs@.len() as int) =~= labs@);
    }
}

fn push_node_names(out: &mut Vec<String>, front: &str, nodes: &Vec<(String, String)>)
    ensures
        string_views(final(out)@) == string_views(old(out)@) + node_names(front@, nodes@),
{
    let ghost base = string_views(out@);
    let mut i: usize = 0;
    while i < nodes.len()
        invariant
            i <= nodes@.len(),
            string_views(out@) == base + node_names(front@, nodes@.take(i as int)),
        decreases nodes@.len() - i,
    {
        proof {
            assert(nodes@.take(i + 1).drop_last() =~= nodes@.take(i as int));
        }
        push_escaped(out, front, nodes[i].0.as_str());
        push_escaped(out, front, nodes[i].1.as_str());
        i = i + 1;
    }
    proof {
        assert(nodes@.take(nodes@.len() as int) =~= nodes@);
    }
}

} // verus!
