//! The command line of the REST client: its sub-commands and their arguments.

use vstd::prelude::*;
use vstd::string::StringExecFns;
use crate::api::chars_of;
use crate::rest::{decimal, decimal_string};
use crate::rest_types::Lab;
use crate::strings::owned;
use crate::term::common::{trim, trim_start, trim_end};

verus! {

/// The HTTP method of a raw request.
#[derive(Debug, Clone, Copy, PartialEq, Eq)]
pub enum HttpMethod {
    GET,
    PUT,
}

/// `char::to_ascii_lowercase`.
pub open spec fn ascii_lower(c: char) -> char {
    if 'A' <= c && c <= 'Z' { ((c as u32) + 32) as char } else { c }
}

/// `str::eq_ignore_ascii_case`: equal but for the case of ASCII letters.
pub open spec fn eq_ignore_ascii_case(a: Seq<char>, b: Seq<char>) -> bool {
    a.len() == b.len() && forall|i: int| 0 <= i < a.len() ==> ascii_lower(#[trigger] a[i]) == ascii_lower(b[i])
}

fn lower(c: char) -> (r: char)
    ensures
        r == ascii_lower(c),
{
    if 'A' <= c && c <= 'Z' {
        ((c as u32 + 32) as u8) as char
    } else {
        c
    }
}

fn eq_ignore_case(a: &str, b: &str) -> (r: bool)
    ensures
        r == eq_ignore_ascii_case(a@, b@),
{
    let x = chars_of(a);
    let y = chars_of(b);
    if x.len() != y.len() {
        return false;
    }
    let mut i: usize = 0;
    while i < x.len()
        invariant
            x@ == a@,
            y@ == b@,
            x@.len() == y@.len(),
            i <= x@.len(),
            forall|k: int| 0 <= k < i ==> ascii_lower(#[trigger] a@[k]) == ascii_lower(b@[k]),
        decreases x@.len() - i,
    {
        if lower(x[i]) != lower(y[i]) {
            return false;
        }
        i = i + 1;
    }
    true
}

impl HttpMethod {
    /// Reads a method, in any case of ASCII letters.
    pub fn parse(s: &str) -> (r: Result<HttpMethod, String>)
        ensures
            eq_ignore_ascii_case(s@, "GET"@) ==> r == Ok::<HttpMethod, String>(HttpMethod::GET),
            !eq_ignore_ascii_case(s@, "GET"@) && eq_ignore_ascii_case(s@, "PUT"@) ==> r == Ok::<HttpMethod, String>(
                HttpMethod::PUT,
            ),
            !eq_ignore_ascii_case(s@, "GET"@) && !eq_ignore_ascii_case(s@, "PUT"@) ==> (r matches Err(e) && e@
                == "valid values: get, put"@),
    {
        if eq_ignore_case(s, "GET") {
            Ok(HttpMethod::GET)
        } else if eq_ignore_case(s, "PUT") {
            Ok(HttpMethod::PUT)
        } else {
            Err(owned("valid values: get, put"))
        }
    }
}

impl std::str::FromStr for HttpMethod {
    type Err = String;

    fn from_str(s: &str) -> (r: Result<HttpMethod, String>)
        ensures
            eq_ignore_ascii_case(s@, "GET"@) ==> r == Ok::<HttpMethod, String>(HttpMethod::GET),
            !eq_ignore_ascii_case(s@, "GET"@) && eq_ignore_ascii_case(s@, "PUT"@) ==> r == Ok::<HttpMethod, String>(
                HttpMethod::PUT,
            ),
            !eq_ignore_ascii_case(s@, "GET"@) && !eq_ignore_ascii_case(s@, "PUT"@) ==> (r matches Err(e) && e@
                == "valid values: get, put"@),
    {
        HttpMethod::parse(s)
    }
}

/// The lab argument of `get lab`.
#[derive(Debug, Clone)]
pub struct LabID {
    pub arg: String,
}

impl LabID {
    /// The lab identifier: the argument without surrounding white space.
    pub fn lab_id(&self) -> (r: &str)
        ensures
            ({
                let s = self.arg@;
                let a = trim_start(s, 0, s.len() as int);
                r@ == s.subrange(a, trim_end(s, a, s.len() as int))
            }),
    {
        trim(self.arg.as_str())
    }
}

/// The text without leading and trailing white space.
pub open spec fn trimmed(s: Seq<char>) -> Seq<char> {
    let a = trim_start(s, 0, s.len() as int);
    s.subrange(a, trim_end(s, a, s.len() as int))
}

/// The decimal text of an integer, with a minus sign where it is negative.
pub open spec fn int_text(n: int) -> Seq<char> {
    if n < 0 {
        seq!['-'] + decimal((-n) as nat)
    } else {
        decimal(n as nat)
    }
}

fn int_string(n: isize) -> (r: String)
    ensures
        r@ == int_text(n as int),
{
    if n < 0 {
        let m: u64 = ((-(n + 1)) as u64) + 1;
        let digits = decimal_string(m);
        let mut s = String::new();
        s.append("-");
        s.append(digits.as_str());
        proof {
            reveal_strlit("-");
            assert(s@ =~= seq!['-'] + decimal((-(n as int)) as nat));
        }
        s
    } else {
        decimal_string(n as u64)
    }
}

/// The lines that describe a lab: its identifier, title and state; its
/// owner and when it was created; its numbers of nodes and links; and its
/// description, trimmed, where that is not empty.
pub open spec fn spec_lab_summary(l: Lab) -> Seq<Seq<char>> {
    let head = seq![
        "Lab "@ + l.id@ + ", \""@ + l.title@ + "\" ("@ + l.state.display_text() + ")"@,
        "Owner: "@ + l.owner@ + ", Created: "@ + l.created@,
        int_text(l.node_count as int) + " nodes, "@ + int_text(l.link_count as int) + " links"@,
    ];
    let d = trimmed(l.description@);
    if d.len() > 0 {
        head + seq!["Description:"@, d]
    } else {
        head
    }
}

/// Describes a lab for `get lab`, one text per line.
pub fn lab_summary(l: &Lab) -> (r: Vec<String>)
    ensures
        r@.map_values(|s: String| s@) == spec_lab_summary(*l),
{
    let mut first = String::new();
    first.append("Lab ");
    first.append(l.id.as_str());
    first.append(", \"");
    first.append(l.title.as_str());
    first.append("\" (");
    let st = l.state.to_display_string();
    first.append(st.as_str());
    first.append(")");
    let mut second = String::new();
    second.append("Owner: ");
    second.append(l.owner.as_str());
    second.append(", Created: ");
    second.append(l.created.as_str());
    let mut third = int_string(l.node_count);
    third.append(" nodes, ");
    let links = int_string(l.link_count);
    third.append(links.as_str());
    third.append(" links");
    let mut out: Vec<String> = Vec::new();
    out.push(first);
    out.push(second);
    out.push(third);
    let d = trim(l.description.as_str());
    let dn = chars_of(d).len();
    if dn > 0 {
        out.push(owned("Description:"));
        out.push(owned(d));
    }
    proof {
        assert(out@.map_values(|s: String| s@) =~= spec_lab_summary(*l));
    }
    out
}

#[derive(Debug, Clone)]
pub enum SubCmdGet {
    Labs,
    Lab(LabID),
}

#[derive(Debug, Clone)]
pub struct SubCmdRaw {
    pub method: HttpMethod,
    pub path: String,
}

#[derive(Debug, Clone)]
pub enum SubCmdRoot {
    Test,
    Get(SubCmdGet),
    Raw(SubCmdRaw),
}

} // verus!
