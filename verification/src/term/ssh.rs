//! The console over CML's SSH server: the command that opens a console line,
//! and the removal of the server's greeting from the console's output.

use vstd::prelude::*;
use vstd::string::StringExecFns;
use vstd::utf8::valid_utf8;
use crate::rest::{decimal, decimal_string};
use crate::term::buffer::{copy_bytes, find_slice, occurs_at};

verus! {

/// The command that opens console line `line` of node `node` of lab `lab`.
pub open spec fn spec_open_command(lab: Seq<char>, node: Seq<char>, line: u64) -> Seq<char> {
    "open /"@ + lab + "/"@ + node + "/"@ + decimal(line as nat)
}

pub fn open_command(lab: &str, node: &str, line: u64) -> (r: String)
    ensures
        r@ == spec_open_command(lab@, node@, line),
{
    let num = decimal_string(line);
    let mut s = String::new();
    s.append("open /");
    s.append(lab);
    s.append("/");
    s.append(node);
    s.append("/");
    s.append(num.as_str());
    proof {
        assert(s@ =~= spec_open_command(lab@, node@, line));
    }
    s
}

/// The line with which the server ends its greeting:
/// `Escape character is '^]'.` and a CR LF.
pub open spec fn greeting_end() -> Seq<u8> {
    seq![
        69u8, 115, 99, 97, 112, 101, 32, 99, 104, 97, 114, 97, 99, 116, 101, 114, 32, 105, 115, 32, 39, 94,
        93, 39, 46, 13, 10,
    ]
}

/// The start of a console's output over SSH, up to the end of the server's
/// greeting.
pub struct SshGreeting {
    /// The greeting has not ended yet.
    pub initializing: bool,
    /// The output received while the greeting had not ended.
    pub init_buffer: Vec<u8>,
}

impl SshGreeting {
    pub fn new() -> (r: SshGreeting)
        ensures
            r.initializing,
            r.init_buffer@.len() == 0,
    {
        SshGreeting { initializing: true, init_buffer: Vec::new() }
    }

    /// Takes in a chunk of the console's output, and gives what of it is the
    /// console's own output: all of it once the greeting has ended; until
    /// then the output is kept, and where it now holds the greeting's last
    /// line, what follows the first such line, if anything.
    pub fn receive(&mut self, chunk: &[u8]) -> (r: Option<Vec<u8>>)
        requires
            old(self).initializing ==> valid_utf8(old(self).init_buffer@ + chunk@),
        ensures
            !old(self).initializing ==> (r matches Some(v) && v@ == chunk@) && *final(self) == *old(self),
            old(self).initializing ==> ({
                let all = old(self).init_buffer@ + chunk@;
                &&& final(self).init_buffer@ == all
                &&& if exists|i: int| occurs_at(all, greeting_end(), i) {
                    exists|i: int|
                        #![trigger occurs_at(all, greeting_end(), i)]
                        occurs_at(all, greeting_end(), i) && (forall|j: int|
                            0 <= j < i ==> !occurs_at(all, greeting_end(), j)) && !final(self).initializing && ({
                            let rest = all.skip(i + greeting_end().len());
                            if rest.len() > 0 {
                                r matches Some(v) && v@ == rest
                            } else {
                                r is None
                            }
                        })
                } else {
                    final(self).initializing && r is None
                }
            }),
    {
        if !self.initializing {
            return Some(copy_bytes(chunk));
        }
        let mut i: usize = 0;
        while i < chunk.len()
            invariant
                i <= chunk@.len(),
                self.init_buffer@ == old(self).init_buffer@ + chunk@.take(i as int),
                self.initializing,
            decreases chunk@.len() - i,
        {
            self.init_buffer.push(chunk[i]);
            proof {
                assert(chunk@.take(i + 1) =~= chunk@.take(i as int).push(chunk@[i as int]));
            }
            i = i + 1;
        }
        proof {
            assert(chunk@.take(chunk@.len() as int) =~= chunk@);
        }
        let needle: [u8; 27] = [
            69, 115, 99, 97, 112, 101, 32, 99, 104, 97, 114, 97, 99, 116, 101, 114, 32, 105, 115, 32, 39, 94, 93,
            39, 46, 13, 10,
        ];
        proof {
            assert(needle@ =~= greeting_end());
        }
        match find_slice(self.init_buffer.as_slice(), needle.as_slice()) {
            None => None,
            Some(i) => {
                self.initializing = false;
                let n = self.init_buffer.len();
                let rest = copy_bytes(vstd::slice::slice_subrange(self.init_buffer.as_slice(), i + 27, n));
                if rest.len() > 0 {
                    Some(rest)
                } else {
                    None
                }
            },
        }
    }
}

} // verus!
