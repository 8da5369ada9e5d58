//! The rules of the CML REST API: request paths, how a response body is
//! read, which error responses mean "not found", and credentials from the
//! environment.

use vstd::prelude::*;
use vstd::string::StringExecFns;
use crate::strings::{owned, push_char, str_eq, str_starts_with, str_contains, seq_starts_with, seq_contains, utf8_str, lemma_utf8_text};

verus! {

// ---------------------------------------------------------------------------
// Numbers and paths
// ---------------------------------------------------------------------------

pub open spec fn digit_char(d: nat) -> char {
    (48 + d) as char
}

/// The decimal digits of `n`.
pub open spec fn decimal(n: nat) -> Seq<char>
    decreases n,
{
    if n < 10 {
        seq![digit_char(n)]
    } else {
        decimal(n / 10).push(digit_char(n % 10))
    }
}

/// The decimal text of `n`.
pub fn decimal_string(n: u64) -> (r: String)
    ensures
        r@ == decimal(n as nat),
{
    let mut digits: Vec<char> = Vec::new();
    let mut m = n;
    while m >= 10
        invariant
            m <= n,
            decimal(n as nat) == decimal(m as nat) + digits@.reverse(),
        decreases m,
    {
        let d = m % 10;
        let c = ((48 + d) as u8) as char;
        proof {
            assert(decimal(m as nat) == decimal((m / 10) as nat).push(digit_char((m % 10) as nat)));
            assert(c == digit_char(d as nat));
            assert(digits@.push(c).reverse() =~= seq![c] + digits@.reverse());
            assert(decimal((m / 10) as nat).push(c) + digits@.reverse() =~= decimal((m / 10) as nat) + (seq![c]
                + digits@.reverse()));
        }
        digits.push(c);
        m = m / 10;
    }
    let mut out = String::new();
    let c0 = ((48 + m) as u8) as char;
    push_char(&mut out, c0);
    proof {
        assert(c0 == digit_char(m as nat));
        assert(out@ =~= decimal(m as nat));
        assert(digits@.reverse().take(0) =~= Seq::<char>::empty());
        assert(out@ =~= decimal(m as nat) + digits@.reverse().take(0));
    }
    let mut i = digits.len();
    while i > 0
        invariant
            i <= digits@.len(),
            out@ == decimal(m as nat) + digits@.reverse().take((digits@.len() - i) as int),
        decreases i,
    {
        i = i - 1;
        push_char(&mut out, digits[i]);
        proof {
            assert(digits@.reverse()[(digits@.len() - i - 1) as int] == digits@[i as int]);
            assert(digits@.reverse().take((digits@.len() - i) as int) =~= digits@.reverse().take(
                (digits@.len() - i - 1) as int,
            ).push(digits@[i as int]));
        }
    }
    proof {
        assert(digits@.reverse().take(digits@.len() as int) =~= digits@.reverse());
    }
    out
}

pub open spec fn bool_text(b: bool) -> Seq<char> {
    if b { "true"@ } else { "false"@ }
}

fn bool_string(b: bool) -> (r: String)
    ensures
        r@ == bool_text(b),
{
    if b {
        owned("true")
    } else {
        owned("false")
    }
}

/// The URL of an endpoint of version 0 of the API: a leading `/` of the
/// endpoint is dropped.
pub open spec fn spec_api_v0_url(host: Seq<char>, endpoint: Seq<char>) -> Seq<char> {
    let e = if endpoint.len() > 0 && endpoint[0] == '/' { endpoint.skip(1) } else { endpoint };
    "https://"@ + host + "/api/v0/"@ + e
}

pub fn api_v0_url(host: &str, endpoint: &str) -> (r: String)
    ensures
        r@ == spec_api_v0_url(host@, endpoint@),
{
    let starts = str_starts_with(endpoint, "/");
    proof {
        reveal_strlit("/");
        assert("/"@ =~= seq!['/']);
        if endpoint@.len() > 0 {
            assert(endpoint@.take(1) =~= seq![endpoint@[0]]);
            if starts {
                assert(endpoint@.take(1)[0] == "/"@[0]);
            } else if endpoint@[0] == '/' {
                assert(endpoint@.take(1) =~= "/"@);
            }
        }
        assert(starts == (endpoint@.len() > 0 && endpoint@[0] == '/'));
    }
    let e = if starts {
        endpoint.substring_char(1, crate::api::chars_of(endpoint).len())
    } else {
        endpoint
    };
    proof {
        if starts {
            assert(e@ =~= endpoint@.skip(1));
        }
    }
    let mut out = owned("https://");
    out.append(host);
    out.append("/api/v0/");
    out.append(e);
    proof {
        assert(out@ =~= spec_api_v0_url(host@, endpoint@));
    }
    out
}

/// The endpoint of a request.
pub enum Endpoint<'a> {
    Labs { show_all: bool },
    Lab { lab_id: &'a str },
    LabNodes { lab_id: &'a str },
    LabNode { lab_id: &'a str, node_id: &'a str },
    LabNodeConfig { lab_id: &'a str, node_id: &'a str },
    LabNodeState { lab_id: &'a str, node_id: &'a str },
    LabNodeStart { lab_id: &'a str, node_id: &'a str },
    LabNodeStop { lab_id: &'a str, node_id: &'a str },
    LabNodeKeysConsole { lab_id: &'a str, node_id: &'a str, line: Option<u64> },
    LabTopology { lab_id: &'a str, include_configurations: bool },
    KeysConsole { show_all: bool },
    KeysVnc { show_all: bool },
    ExtractNodeConfig { lab_id: &'a str, node_id: &'a str },
    SimplifiedNodeDefinitions,
}

pub open spec fn node_path(lab_id: Seq<char>, node_id: Seq<char>) -> Seq<char> {
    "/labs/"@ + lab_id + "/nodes/"@ + node_id
}

/// The path of an endpoint.
pub open spec fn spec_path(e: Endpoint) -> Seq<char> {
    match e {
        Endpoint::Labs { show_all } => "/labs?show_all="@ + bool_text(show_all),
        Endpoint::Lab { lab_id } => "/labs/"@ + lab_id@,
        Endpoint::LabNodes { lab_id } => "/labs/"@ + lab_id@ + "/nodes"@,
        Endpoint::LabNode { lab_id, node_id } => node_path(lab_id@, node_id@) + "?simplified=true"@,
        Endpoint::LabNodeConfig { lab_id, node_id } => node_path(lab_id@, node_id@) + "/config"@,
        Endpoint::LabNodeState { lab_id, node_id } => node_path(lab_id@, node_id@) + "/state"@,
        Endpoint::LabNodeStart { lab_id, node_id } => node_path(lab_id@, node_id@) + "/state/start"@,
        Endpoint::LabNodeStop { lab_id, node_id } => node_path(lab_id@, node_id@) + "/state/stop"@,
        Endpoint::LabNodeKeysConsole { lab_id, node_id, line } => node_path(lab_id@, node_id@)
            + "/keys/console"@ + match line {
            Some(l) => "?line="@ + decimal(l as nat),
            None => Seq::empty(),
        },
        Endpoint::LabTopology { lab_id, include_configurations } => "/labs/"@ + lab_id@
            + "/topology?exclude_configurations="@ + bool_text(!include_configurations),
        Endpoint::KeysConsole { show_all } => "/keys/console?show_all="@ + bool_text(show_all),
        Endpoint::KeysVnc { show_all } => "/keys/vnc?show_all="@ + bool_text(show_all),
        Endpoint::ExtractNodeConfig { lab_id, node_id } => node_path(lab_id@, node_id@)
            + "/extract_configuration"@,
        Endpoint::SimplifiedNodeDefinitions => "/simplified_node_definitions"@,
    }
}

fn node_path_string(lab_id: &str, node_id: &str, suffix: &str) -> (r: String)
    ensures
        r@ == node_path(lab_id@, node_id@) + suffix@,
{
    let mut out = owned("/labs/");
    out.append(lab_id);
    out.append("/nodes/");
    out.append(node_id);
    out.append(suffix);
    proof {
        assert(out@ =~= node_path(lab_id@, node_id@) + suffix@);
    }
    out
}

fn text_then_bool(t: &str, b: bool) -> (r: String)
    ensures
        r@ == t@ + bool_text(b),
{
    let mut out = owned(t);
    let s = bool_string(b);
    out.append(s.as_str());
    out
}

impl<'a> Endpoint<'a> {
    /// The path of the endpoint, relative to the API's root.
    pub fn path(&self) -> (r: String)
        ensures
            r@ == spec_path(*self),
    {
        match self {
            Endpoint::Labs { show_all } => text_then_bool("/labs?show_all=", *show_all),
            Endpoint::Lab { lab_id } => {
                let mut out = owned("/labs/");
                out.append(lab_id);
                out
            },
            Endpoint::LabNodes { lab_id } => {
                let mut out = owned("/labs/");
                out.append(lab_id);
                out.append("/nodes");
                proof {
                    assert(out@ =~= "/labs/"@ + lab_id@ + "/nodes"@);
                }
                out
            },
            Endpoint::LabNode { lab_id, node_id } => node_path_string(lab_id, node_id, "?simplified=true"),
            Endpoint::LabNodeConfig { lab_id, node_id } => node_path_string(lab_id, node_id, "/config"),
            Endpoint::LabNodeState { lab_id, node_id } => node_path_string(lab_id, node_id, "/state"),
            Endpoint::LabNodeStart { lab_id, node_id } => node_path_string(lab_id, node_id, "/state/start"),
            Endpoint::LabNodeStop { lab_id, node_id } => node_path_string(lab_id, node_id, "/state/stop"),
            Endpoint::LabNodeKeysConsole { lab_id, node_id, line } => {
                let mut out = node_path_string(lab_id, node_id, "/keys/console");
                match line {
                    Some(l) => {
                        out.append("?line=");
                        let d = decimal_string(*l);
                        out.append(d.as_str());
                        proof {
                            assert(out@ =~= node_path(lab_id@, node_id@) + "/keys/console"@ + ("?line="@ + decimal(
                                *l as nat,
                            )));
                        }
                    },
                    None => {
                        proof {
                            assert(out@ =~= node_path(lab_id@, node_id@) + "/keys/console"@ + Seq::<char>::empty());
                        }
                    },
                }
                out
            },
            Endpoint::LabTopology { lab_id, include_configurations } => {
                let mut out = owned("/labs/");
                out.append(lab_id);
                out.append("/topology?exclude_configurations=");
                let s = bool_string(!*include_configurations);
                out.append(s.as_str());
                proof {
                    assert(out@ =~= "/labs/"@ + lab_id@ + "/topology?exclude_configurations="@ + bool_text(
                        !*include_configurations,
                    ));
                }
                out
            },
            Endpoint::KeysConsole { show_all } => text_then_bool("/keys/console?show_all=", *show_all),
            Endpoint::KeysVnc { show_all } => text_then_bool("/keys/vnc?show_all=", *show_all),
            Endpoint::ExtractNodeConfig { lab_id, node_id } => node_path_string(
                lab_id,
                node_id,
                "/extract_configuration",
            ),
            Endpoint::SimplifiedNodeDefinitions => owned("/simplified_node_definitions"),
        }
    }
}

// ---------------------------------------------------------------------------
// Responses
// ---------------------------------------------------------------------------

/// How a response body is read.
#[derive(Debug, Clone, Copy, PartialEq, Eq)]
pub enum BodyKind {
    /// No body.
    Empty,
    PlainText,
    Json,
}

/// How a body of `content_length` bytes with the given `Content-Type` is
/// read: plain text or JSON in UTF-8; any other type, or a body without a
/// type, is an error with its message.
pub fn body_kind(content_length: u64, content_type: Option<&str>) -> (r: Result<BodyKind, String>)
    ensures
        content_length == 0 ==> r == Ok::<BodyKind, String>(BodyKind::Empty),
        content_length != 0 ==> match content_type {
            None => r matches Err(m) && m@ == "response without a Content-Type header"@,
            Some(ct) => if ct@ == "text/plain; charset=utf-8"@ {
                r == Ok::<BodyKind, String>(BodyKind::PlainText)
            } else if ct@ == "application/json; charset=utf-8"@ {
                r == Ok::<BodyKind, String>(BodyKind::Json)
            } else {
                r matches Err(m) && m@ == "unknown content-type: `"@ + ct@ + "`"@
            },
        },
{
    if content_length == 0 {
        return Ok(BodyKind::Empty);
    }
    match content_type {
        None => Err(owned("response without a Content-Type header")),
        Some(ct) => {
            if str_eq(ct, "text/plain; charset=utf-8") {
                Ok(BodyKind::PlainText)
            } else if str_eq(ct, "application/json; charset=utf-8") {
                Ok(BodyKind::Json)
            } else {
                let mut m = owned("unknown content-type: `");
                m.append(ct);
                m.append("`");
                Err(m)
            }
        },
    }
}

/// Which requests an error response can mean "not found" for.
#[derive(Debug, Clone, Copy, PartialEq, Eq)]
pub enum NotFoundKind {
    /// A lab: a 404 for a missing lab.
    Lab,
    /// A node: a 404 for a missing lab or node.
    Node,
    /// A console key: a 400, 404 or 500 for a missing lab, serial port or node.
    ConsoleKey,
}

/// Whether an error response (its status and the `description` of its JSON
/// body) means that what was asked for does not exist.
pub open spec fn spec_not_found(kind: NotFoundKind, status: u16, desc: Seq<char>) -> bool {
    match kind {
        NotFoundKind::Lab => status == 404 && seq_starts_with(desc, "Lab not found: "@),
        NotFoundKind::Node => status == 404 && (seq_starts_with(desc, "Lab not found: "@) || seq_starts_with(
            desc,
            "Node not found: "@,
        )),
        NotFoundKind::ConsoleKey => (status == 400 || status == 404 || status == 500) && (seq_starts_with(
            desc,
            "Lab not found: "@,
        ) || seq_starts_with(desc, "Serial port does not exist on node: "@) || seq_contains(
            desc,
            "encountered an unexpected error. Please report this problem to support."@,
        )),
    }
}

pub fn is_not_found(kind: NotFoundKind, status: u16, desc: &str) -> (r: bool)
    ensures
        r == spec_not_found(kind, status, desc@),
{
    match kind {
        NotFoundKind::Lab => status == 404 && str_starts_with(desc, "Lab not found: "),
        NotFoundKind::Node => status == 404 && (str_starts_with(desc, "Lab not found: ") || str_starts_with(
            desc,
            "Node not found: ",
        )),
        NotFoundKind::ConsoleKey => (status == 400 || status == 404 || status == 500) && (str_starts_with(
            desc,
            "Lab not found: ",
        ) || str_starts_with(desc, "Serial port does not exist on node: ") || str_contains(
            desc,
            "encountered an unexpected error. Please report this problem to support.",
        )),
    }
}

/// Whether a login response is the server's refusal of the credentials: a
/// 403 whose JSON body is the string `Authentication failed!`.
pub fn is_authentication_failure(status: u16, json_string: Option<&str>) -> (r: bool)
    ensures
        r == (status == 403 && (json_string matches Some(s) && s@ == "Authentication failed!"@)),
{
    match json_string {
        Some(s) => status == 403 && str_eq(s, "Authentication failed!"),
        None => false,
    }
}

// ---------------------------------------------------------------------------
// Credentials
// ---------------------------------------------------------------------------

#[derive(Debug)]
pub struct Authenticate {
    pub host: String,
    pub username: String,
    pub password: String,
}

pub const ENV_CML_HOST: &'static str = "CML_HOST";
pub const ENV_CML_USER: &'static str = "CML_USER";
pub const ENV_CML_PASS: &'static str = "CML_PASS";
pub const ENV_CML_PASS64: &'static str = "CML_PASS64";

#[verifier::external_type_specification]
#[verifier::external_body]
pub struct ExDecodeError(base64::DecodeError);

/// The bytes that `base64::decode` (the standard alphabet, with padding)
/// gives for the input, or nothing where it rejects it.
pub uninterp spec fn spec_base64_decode(input: Seq<u8>) -> Option<Seq<u8>>;

/// `base64::decode` of the `base64` crate; what it returns is named by
/// `spec_base64_decode`.
#[verifier::external_body]
fn base64_decode(input: &[u8]) -> (r: Result<Vec<u8>, base64::DecodeError>)
    ensures
        match r {
            Ok(v) => spec_base64_decode(input@) == Some(v@),
            Err(_) => spec_base64_decode(input@) is None,
        },
{
    base64::decode(input)
}

/// The password that a base64 value stands for: its decoding, if that is UTF-8.
pub open spec fn spec_pass64(v: Seq<u8>) -> Option<Seq<char>> {
    match spec_base64_decode(v) {
        Some(b) => if vstd::utf8::valid_utf8(b) {
            Some(vstd::utf8::decode_utf8(b))
        } else {
            None
        },
        None => None,
    }
}

/// Decodes a base64 password.
pub fn decode_pass64(s: &str) -> (r: Option<String>)
    ensures
        match spec_pass64(vstd::utf8::encode_utf8(s@)) {
            Some(p) => r matches Some(t) && t@ == p,
            None => r is None,
        },
{
    let bytes = s.as_bytes();
    match base64_decode(bytes) {
        Err(_) => None,
        Ok(v) => match utf8_str(v.as_slice()) {
            None => None,
            Some(t) => {
                proof {
                    lemma_utf8_text(t, v@);
                }
                Some(owned(t))
            },
        },
    }
}

/// The credentials from the environment variables `CML_HOST`, `CML_USER`,
/// and `CML_PASS64` (base64) or else `CML_PASS`; each is given where it is
/// set and Unicode.
pub fn get_auth_env(host: Option<String>, user: Option<String>, pass: Option<String>, pass64: Option<String>) -> (r: Result<Authenticate, String>)
    ensures
        host is None ==> (r matches Err(m) && m@ == "Missing or invalid environment variable `CML_HOST`"@),
        host is Some && user is None ==> (r matches Err(m) && m@
            == "Missing or invalid environment variable `CML_USER`"@),
        host is Some && user is Some ==> ({
            let p64 = match pass64 {
                Some(p) => spec_pass64(vstd::utf8::encode_utf8(p@)),
                None => None,
            };
            match p64 {
                Some(p) => r matches Ok(a) && a.host@ == host.unwrap()@ && a.username@ == user.unwrap()@
                    && a.password@ == p,
                None => match pass {
                    Some(p) => r matches Ok(a) && a.host@ == host.unwrap()@ && a.username@ == user.unwrap()@
                        && a.password@ == p@,
                    None => r matches Err(m) && m@
                        == "Missing or invalid environment variable(s): `CML_PASS64` or `CML_PASS`"@,
                },
            }
        }),
{
    let host = match host {
        None => {
            return Err(owned("Missing or invalid environment variable `CML_HOST`"));
        },
        Some(h) => h,
    };
    let user = match user {
        None => {
            return Err(owned("Missing or invalid environment variable `CML_USER`"));
        },
        Some(u) => u,
    };
    let decoded = match &pass64 {
        Some(p) => decode_pass64(p.as_str()),
        None => None,
    };
    let password = match decoded {
        Some(p) => p,
        None => match pass {
            Some(p) => p,
            None => {
                return Err(owned("Missing or invalid environment variable(s): `CML_PASS64` or `CML_PASS`"));
            },
        },
    };
    Ok(Authenticate { host, username: user, password })
}

} // verus!
