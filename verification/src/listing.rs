//! Listing the console lines of the labs on a server, grouped by lab and node.

use vstd::prelude::*;
use crate::rest_types::{LabTopology, State};
use crate::rest_types::key::Console;
use crate::strings::str_eq;
use crate::shell_quote::{debug_str, spec_debug_str};
use crate::listing::entries::{state_name, state_name_str};
use crate::rest::{decimal, decimal_string};
use vstd::string::StringExecFns;

pub mod entries;

verus! {

#[derive(Debug)]
pub struct ConsoleNodeEntry {
    pub node_id: String,
    pub node_title: String,
    /// The keys of the node's console lines by line number, or the node's
    /// state where it has none.
    pub lines: Result<Vec<String>, State>,
}

#[derive(Debug)]
pub struct ConsoleLabEntry {
    pub owner: String,
    pub lab_id: String,
    pub lab_title: String,
    /// The lab's nodes, or the lab's state where none of its nodes has a line.
    pub nodes: Result<Vec<ConsoleNodeEntry>, State>,
}

/// A node entry as plain values.
pub type NodeEntryView = (Seq<char>, Seq<char>, Result<Seq<Seq<char>>, State>);

/// A lab entry as plain values.
pub type LabEntryView = (Seq<char>, Seq<char>, Seq<char>, Result<Seq<NodeEntryView>, State>);

pub open spec fn node_entry_view(e: ConsoleNodeEntry) -> NodeEntryView {
    (e.node_id@, e.node_title@, match e.lines {
        Ok(v) => Ok(v@.map_values(|s: String| s@)),
        Err(s) => Err(s),
    })
}

pub open spec fn lab_entry_view(e: ConsoleLabEntry) -> LabEntryView {
    (e.owner@, e.lab_id@, e.lab_title@, match e.nodes {
        Ok(v) => Ok(v@.map_values(|n: ConsoleNodeEntry| node_entry_view(n))),
        Err(s) => Err(s),
    })
}

// ---------------------------------------------------------------------------
// Lines of a node, by line number
// ---------------------------------------------------------------------------

/// The line number and key of each console key of node `nid` of lab `lid`,
/// in the order of `keys`.
pub open spec fn node_keys(keys: Seq<(String, Console)>, lid: Seq<char>, nid: Seq<char>) -> Seq<(u64, Seq<char>)>
    decreases keys.len(),
{
    if keys.len() == 0 {
        Seq::empty()
    } else {
        let k = keys.last();
        node_keys(keys.drop_last(), lid, nid) + if k.1.lab_id@ == lid && k.1.node_id@ == nid {
            seq![(k.1.line, k.0@)]
        } else {
            Seq::empty()
        }
    }
}

/// Where `x` goes in a sequence sorted by line: after every entry with a
/// line number no greater than its own.
pub open spec fn insert_pos(s: Seq<(u64, Seq<char>)>, line: u64) -> int
    decreases s.len(),
{
    if s.len() == 0 || s.last().0 <= line {
        s.len() as int
    } else {
        insert_pos(s.drop_last(), line)
    }
}

pub open spec fn insert_by_line(s: Seq<(u64, Seq<char>)>, x: (u64, Seq<char>)) -> Seq<(u64, Seq<char>)> {
    let p = insert_pos(s, x.0);
    s.take(p).push(x) + s.skip(p)
}

/// `s` sorted by line number, entries of the same line keeping their order.
pub open spec fn sort_by_line(s: Seq<(u64, Seq<char>)>) -> Seq<(u64, Seq<char>)>
    decreases s.len(),
{
    if s.len() == 0 {
        Seq::empty()
    } else {
        insert_by_line(sort_by_line(s.drop_last()), s.last())
    }
}

pub open spec fn sorted_by_line(s: Seq<(u64, Seq<char>)>) -> bool {
    forall|i: int, j: int| 0 <= i < j < s.len() ==> s[i].0 <= s[j].0
}

proof fn lemma_insert_pos(s: Seq<(u64, Seq<char>)>, line: u64)
    ensures
        0 <= insert_pos(s, line) <= s.len(),
        forall|k: int| insert_pos(s, line) <= k < s.len() ==> s[k].0 > line,
        sorted_by_line(s) && insert_pos(s, line) > 0 ==> s[insert_pos(s, line) - 1].0 <= line,
    decreases s.len(),
{
    if s.len() > 0 && s.last().0 > line {
        lemma_insert_pos(s.drop_last(), line);
        assert forall|k: int| insert_pos(s, line) <= k < s.len() implies s[k].0 > line by {
            if k < s.len() - 1 {
                assert(s.drop_last()[k] == s[k]);
            }
        }
        if sorted_by_line(s) {
            assert(sorted_by_line(s.drop_last()));
        }
    }
}

/// Sorting by line gives a sequence sorted by line.
pub proof fn law_sort_by_line_sorted(s: Seq<(u64, Seq<char>)>)
    ensures
        sorted_by_line(sort_by_line(s)),
        sort_by_line(s).len() == s.len(),
    decreases s.len(),
{
    if s.len() > 0 {
        let t = sort_by_line(s.drop_last());
        law_sort_by_line_sorted(s.drop_last());
        let x = s.last();
        lemma_insert_pos(t, x.0);
        let p = insert_pos(t, x.0);
        let r = insert_by_line(t, x);
        assert forall|i: int, j: int| 0 <= i < j < r.len() implies r[i].0 <= r[j].0 by {
            if j < p {
            } else if j == p {
                if i < p {
                    assert(t[i].0 <= t[p - 1].0);
                }
            } else if i < p {
                assert(r[j] == t[j - 1]);
            } else if i == p {
                assert(r[j] == t[j - 1]);
            } else {
                assert(r[i] == t[i - 1]);
                assert(r[j] == t[j - 1]);
            }
        }
    }
}

/// The keys of the node's lines, sorted by line number.
pub open spec fn node_lines(keys: Seq<(String, Console)>, lid: Seq<char>, nid: Seq<char>) -> Seq<Seq<char>> {
    sort_by_line(node_keys(keys, lid, nid)).map_values(|p: (u64, Seq<char>)| p.1)
}

pub open spec fn keyed_view(v: Seq<(u64, String)>) -> Seq<(u64, Seq<char>)> {
    v.map_values(|p: (u64, String)| (p.0, p.1@))
}

fn sorted_lines(keys: &Vec<(String, Console)>, lid: &str, nid: &str) -> (r: Vec<String>)
    ensures
        r@.map_values(|s: String| s@) == node_lines(keys@, lid@, nid@),
{
    let mut v: Vec<(u64, String)> = Vec::new();
    let mut i: usize = 0;
    while i < keys.len()
        invariant
            i <= keys@.len(),
            keyed_view(v@) == sort_by_line(node_keys(keys@.take(i as int), lid@, nid@)),
        decreases keys@.len() - i,
    {
        let k = &keys[i];
        proof {
            assert(keys@.take(i + 1).drop_last() =~= keys@.take(i as int));
            assert(keys@.take(i + 1).last() == keys@[i as int]);
        }
        if str_eq(k.1.lab_id.as_str(), lid) && str_eq(k.1.node_id.as_str(), nid) {
            let line = k.1.line;
            let ghost s = keyed_view(v@);
            let mut p = v.len();
            proof {
                assert(s.take(p as int) =~= s);
            }
            while p > 0 && v[p - 1].0 > line
                invariant
                    p <= v@.len(),
                    s == keyed_view(v@),
                    insert_pos(s, line) == insert_pos(s.take(p as int), line),
                decreases p,
            {
                proof {
                    assert(s.take(p as int).drop_last() =~= s.take(p - 1));
                }
                p = p - 1;
            }
            proof {
                if p > 0 {
                    assert(s.take(p as int).last() == s[p - 1]);
                }
                assert(insert_pos(s.take(p as int), line) == p);
            }
            let ghost x = (line, k.0@);
            v.insert(p, (line, k.0.clone()));
            proof {
                assert(keyed_view(v@) =~= s.take(p as int).push(x) + s.skip(p as int));
                assert(node_keys(keys@.take(i + 1), lid@, nid@) =~= node_keys(keys@.take(i as int), lid@, nid@)
                    + seq![x]);
                assert(node_keys(keys@.take(i + 1), lid@, nid@).drop_last() =~= node_keys(
                    keys@.take(i as int),
                    lid@,
                    nid@,
                ));
            }
        }
        i = i + 1;
    }
    proof {
        assert(keys@.take(keys@.len() as int) =~= keys@);
    }
    let mut out: Vec<String> = Vec::new();
    let mut j: usize = 0;
    while j < v.len()
        invariant
            j <= v@.len(),
            out@.map_values(|s: String| s@) == keyed_view(v@).take(j as int).map_values(|p: (u64, Seq<char>)| p.1),
        decreases v@.len() - j,
    {
        let ghost prev = out@;
        out.push(v[j].1.clone());
        proof {
            assert(out@.map_values(|s: String| s@) =~= prev.map_values(|s: String| s@).push(v@[j as int].1@));
            assert(keyed_view(v@).take(j + 1).map_values(|p: (u64, Seq<char>)| p.1) =~= keyed_view(v@).take(
                j as int,
            ).map_values(|p: (u64, Seq<char>)| p.1).push(v@[j as int].1@));
        }
        j = j + 1;
    }
    proof {
        assert(keyed_view(v@).take(v@.len() as int) =~= keyed_view(v@));
    }
    out
}

// ---------------------------------------------------------------------------
// Labs and nodes
// ---------------------------------------------------------------------------

/// Whether some console key is of lab `lid`.
pub open spec fn lab_active(keys: Seq<(String, Console)>, lid: Seq<char>) -> bool {
    exists|i: int| 0 <= i < keys.len() && (#[trigger] keys[i]).1.lab_id@ == lid
}

/// Whether node `j` is the first of the topology with its identifier.
pub open spec fn first_of_id(topo: LabTopology, j: int) -> bool {
    forall|k: int| 0 <= k < j ==> (#[trigger] topo.nodes@[k]).id@ != topo.nodes@[j].id@
}

/// The entry of node `j` of the lab: its lines, or where it has none (or,
/// listing all, where an earlier node of the same identifier took them),
/// its state.
pub open spec fn node_entry(keys: Seq<(String, Console)>, lid: Seq<char>, topo: LabTopology, j: int, show_all: bool) -> NodeEntryView {
    let n = topo.nodes@[j];
    let lines = node_lines(keys, lid, n.id@);
    (n.id@, n.data.label@, if lines.len() > 0 && (!show_all || first_of_id(topo, j)) {
        Ok(lines)
    } else {
        Err(n.data.state)
    })
}

/// The node entries of a lab with lines: every node where listing all, else
/// the nodes with lines.
pub open spec fn node_entries(keys: Seq<(String, Console)>, lid: Seq<char>, topo: LabTopology, show_all: bool, n: int) -> Seq<NodeEntryView>
    decreases n,
{
    if n <= 0 {
        Seq::empty()
    } else {
        let e = node_entry(keys, lid, topo, n - 1, show_all);
        node_entries(keys, lid, topo, show_all, n - 1) + if show_all || e.2 is Ok {
            seq![e]
        } else {
            Seq::empty()
        }
    }
}

/// The entry of a lab: its nodes where some console key is of it, else its state.
pub open spec fn lab_entry(keys: Seq<(String, Console)>, lid: Seq<char>, topo: LabTopology, show_all: bool) -> LabEntryView {
    (topo.owner@, lid, topo.title@, if lab_active(keys, lid) {
        Ok(node_entries(keys, lid, topo, show_all, topo.nodes@.len() as int))
    } else {
        Err(topo.state)
    })
}

pub open spec fn distinct_labs(labs: Seq<(String, LabTopology)>) -> bool {
    forall|i: int, j: int| 0 <= i < j < labs.len() ==> (#[trigger] labs[i]).0@ != (#[trigger] labs[j]).0@
}

fn lab_active_exec(keys: &Vec<(String, Console)>, lid: &str) -> (r: bool)
    ensures
        r == lab_active(keys@, lid@),
{
    let mut i: usize = 0;
    while i < keys.len()
        invariant
            i <= keys@.len(),
            forall|k: int| 0 <= k < i ==> (#[trigger] keys@[k]).1.lab_id@ != lid@,
        decreases keys@.len() - i,
    {
        if str_eq(keys[i].1.lab_id.as_str(), lid) {
            return true;
        }
        i = i + 1;
    }
    false
}

fn first_of_id_exec(topo: &LabTopology, j: usize) -> (r: bool)
    requires
        j < topo.nodes@.len(),
    ensures
        r == first_of_id(*topo, j as int),
{
    let mut k: usize = 0;
    while k < j
        invariant
            j < topo.nodes@.len(),
            k <= j,
            forall|m: int| 0 <= m < k ==> (#[trigger] topo.nodes@[m]).id@ != topo.nodes@[j as int].id@,
        decreases j - k,
    {
        if str_eq(topo.nodes[k].id.as_str(), topo.nodes[j].id.as_str()) {
            return false;
        }
        k = k + 1;
    }
    true
}

/// The console lines of the labs `lab_topos` (identifier and topology of
/// each, identifiers distinct) among the console `keys` of the server (key
/// and line of each), grouped into labs and nodes. Listing all, each node of
/// a lab with lines has an entry, else only the nodes with lines.
pub fn console_lines(show_all: bool, keys: &Vec<(String, Console)>, lab_topos: &Vec<(String, LabTopology)>) -> (r: Vec<ConsoleLabEntry>)
    requires
        distinct_labs(lab_topos@),
    ensures
        r@.len() == lab_topos@.len(),
        forall|i: int| 0 <= i < r@.len() ==> lab_entry_view(#[trigger] r@[i]) == lab_entry(
            keys@,
            lab_topos@[i].0@,
            lab_topos@[i].1,
            show_all,
        ),
{
    let mut entries: Vec<ConsoleLabEntry> = Vec::new();
    let mut li: usize = 0;
    while li < lab_topos.len()
        invariant
            li <= lab_topos@.len(),
            entries@.len() == li,
            forall|i: int| 0 <= i < li ==> lab_entry_view(#[trigger] entries@[i]) == lab_entry(
                keys@,
                lab_topos@[i].0@,
                lab_topos@[i].1,
                show_all,
            ),
        decreases lab_topos@.len() - li,
    {
        let lid = &lab_topos[li].0;
        let topo = &lab_topos[li].1;
        let nodes = if lab_active_exec(keys, lid.as_str()) {
            let mut ns: Vec<ConsoleNodeEntry> = Vec::new();
            let mut j: usize = 0;
            while j < topo.nodes.len()
                invariant
                    j <= topo.nodes@.len(),
                    ns@.map_values(|n: ConsoleNodeEntry| node_entry_view(n)) == node_entries(
                        keys@,
                        lid@,
                        *topo,
                        show_all,
                        j as int,
                    ),
                decreases topo.nodes@.len() - j,
            {
                let node = &topo.nodes[j];
                let lines = sorted_lines(keys, lid.as_str(), node.id.as_str());
                let ghost e = node_entry(keys@, lid@, *topo, j as int, show_all);
                let has = lines.len() > 0;
                let ghost prev = ns@;
                if show_all {
                    let first = first_of_id_exec(topo, j);
                    let entry = ConsoleNodeEntry {
                        node_id: node.id.clone(),
                        node_title: node.data.label.clone(),
                        lines: if has && first { Ok(lines) } else { Err(node.data.state) },
                    };
                    proof {
                        assert(node_entry_view(entry) == e);
                    }
                    ns.push(entry);
                    proof {
                        assert(ns@.map_values(|n: ConsoleNodeEntry| node_entry_view(n)) =~= prev.map_values(
                            |n: ConsoleNodeEntry| node_entry_view(n),
                        ).push(e));
                    }
                } else if has {
                    let entry = ConsoleNodeEntry {
                        node_id: node.id.clone(),
                        node_title: node.data.label.clone(),
                        lines: Ok(lines),
                    };
                    proof {
                        assert(node_entry_view(entry) == e);
                    }
                    ns.push(entry);
                    proof {
                        assert(ns@.map_values(|n: ConsoleNodeEntry| node_entry_view(n)) =~= prev.map_values(
                            |n: ConsoleNodeEntry| node_entry_view(n),
                        ).push(e));
                    }
                } else {
                    proof {
                        assert(node_entries(keys@, lid@, *topo, show_all, j + 1) =~= node_entries(
                            keys@,
                            lid@,
                            *topo,
                            show_all,
                            j as int,
                        ));
                    }
                }
                j = j + 1;
            }
            Ok(ns)
        } else {
            Err(topo.state)
        };
        let entry = ConsoleLabEntry {
            owner: topo.owner.clone(),
            lab_id: lid.clone(),
            lab_title: topo.title.clone(),
            nodes,
        };
        proof {
            assert(lab_entry_view(entry) == lab_entry(keys@, lab_topos@[li as int].0@, lab_topos@[li as int].1, show_all));
        }
        entries.push(entry);
        li = li + 1;
    }
    entries
}

pub open spec fn listed(ids: Seq<String>, lid: Seq<char>) -> bool {
    exists|j: int| 0 <= j < ids.len() && (#[trigger] ids[j])@ == lid
}

/// The identifiers of the labs that console keys belong to, each once.
pub fn active_lab_ids(keys: &Vec<(String, Console)>) -> (r: Vec<String>)
    ensures
        forall|i: int| 0 <= i < r@.len() ==> lab_active(keys@, #[trigger] r@[i]@),
        forall|i: int| 0 <= i < keys@.len() ==> listed(r@, (#[trigger] keys@[i]).1.lab_id@),
        forall|i: int, j: int| 0 <= i < j < r@.len() ==> (#[trigger] r@[i])@ != (#[trigger] r@[j])@,
{
    let mut out: Vec<String> = Vec::new();
    let mut i: usize = 0;
    while i < keys.len()
        invariant
            i <= keys@.len(),
            forall|k: int| 0 <= k < out@.len() ==> lab_active(keys@, #[trigger] out@[k]@),
            forall|k: int| 0 <= k < i ==> listed(out@, (#[trigger] keys@[k]).1.lab_id@),
            forall|a: int, b: int| 0 <= a < b < out@.len() ==> (#[trigger] out@[a])@ != (#[trigger] out@[b])@,
        decreases keys@.len() - i,
    {
        let lid = &keys[i].1.lab_id;
        let mut j: usize = 0;
        while j < out.len() && !str_eq(out[j].as_str(), lid.as_str())
            invariant
                j <= out@.len(),
                forall|m: int| 0 <= m < j ==> (#[trigger] out@[m])@ != lid@,
            decreases out@.len() - j,
        {
            j = j + 1;
        }
        if j == out.len() {
            let ghost prev = out@;
            proof {
                assert(lab_active(keys@, lid@)) by {
                    assert(keys@[i as int].1.lab_id@ == lid@);
                }
            }
            out.push(lid.clone());
            proof {
                assert forall|k: int| 0 <= k <= i implies listed(out@, (#[trigger] keys@[k]).1.lab_id@) by {
                    if k < i {
                        assert(listed(prev, keys@[k].1.lab_id@));
                        let m = choose|m: int| 0 <= m < prev.len() && (#[trigger] prev[m])@ == keys@[k].1.lab_id@;
                        assert(out@[m] == prev[m]);
                    } else {
                        assert(out@[prev.len() as int]@ == lid@);
                    }
                }
            }
        } else {
            proof {
                assert(out@[j as int]@ == keys@[i as int].1.lab_id@);
                assert(listed(out@, keys@[i as int].1.lab_id@));
            }
        }
        i = i + 1;
    }
    out
}


/// Lists the console lines (or VNC keys, or links) of the labs.
#[derive(Debug, Clone, Copy)]
pub struct SubCmdList {
    /// Shows lines/devices for all users, and all console lines
    pub all: bool,
    pub json: bool,
    pub vnc: bool,
    pub links: bool,
}

/// What is listed.
#[derive(Debug, Clone, Copy, PartialEq, Eq)]
pub enum ListType {
    Console,
    VNC,
    Link,
}

impl SubCmdList {
    /// What is listed: VNC keys or links where asked (the two exclude each
    /// other), else console lines.
    pub fn listing_type(&self) -> (r: ListType)
        requires
            !(self.vnc && self.links),
        ensures
            r == (if self.vnc { ListType::VNC } else if self.links { ListType::Link } else { ListType::Console }),
    {
        if self.vnc {
            ListType::VNC
        } else if self.links {
            ListType::Link
        } else {
            ListType::Console
        }
    }
}

// ---------------------------------------------------------------------------
// Text of a lab entry
// ---------------------------------------------------------------------------

/// The line for a lab without active nodes.
pub open spec fn lab_inactive_line(e: ConsoleLabEntry, st: State) -> Seq<char> {
    "["@ + e.owner@ + "] /"@ + e.lab_id@ + "/- :: "@ + spec_debug_str(e.lab_title@) + "\t(not available, lab is "@
        + state_name(st) + ")\n"@
}

/// The line for a node without console lines.
pub open spec fn node_inactive_line(e: ConsoleLabEntry, n: ConsoleNodeEntry, st: State) -> Seq<char> {
    "["@ + e.owner@ + "] /"@ + e.lab_id@ + "/"@ + n.node_id@ + "/- :: "@ + spec_debug_str(e.lab_title@) + "/"@
        + n.node_title@ + "\t(not available, device is "@ + state_name(st) + ")\n"@
}

/// The line for console line `i` of a node, whose key is `key`.
pub open spec fn node_line_text(e: ConsoleLabEntry, n: ConsoleNodeEntry, i: nat, key: Seq<char>) -> Seq<char> {
    "["@ + e.owner@ + "] /"@ + e.lab_id@ + "/"@ + n.node_id@ + "/"@ + decimal(i) + " :: "@ + spec_debug_str(
        e.lab_title@,
    ) + "/"@ + n.node_title@ + "\t("@ + key + ")\n"@
}

/// The lines for the first `k` console lines of a node.
pub open spec fn node_lines_text(e: ConsoleLabEntry, n: ConsoleNodeEntry, keys: Seq<String>, k: int) -> Seq<char>
    decreases k,
{
    if k <= 0 || k > keys.len() {
        Seq::empty()
    } else {
        node_lines_text(e, n, keys, k - 1) + node_line_text(e, n, (k - 1) as nat, keys[k - 1]@)
    }
}

/// The lines for a node.
pub open spec fn node_entry_text(e: ConsoleLabEntry, n: ConsoleNodeEntry) -> Seq<char> {
    match n.lines {
        Err(st) => node_inactive_line(e, n, st),
        Ok(keys) => node_lines_text(e, n, keys@, keys@.len() as int),
    }
}

/// The lines for the first `k` nodes of a lab.
pub open spec fn nodes_text(e: ConsoleLabEntry, nodes: Seq<ConsoleNodeEntry>, k: int) -> Seq<char>
    decreases k,
{
    if k <= 0 || k > nodes.len() {
        Seq::empty()
    } else {
        nodes_text(e, nodes, k - 1) + node_entry_text(e, nodes[k - 1])
    }
}

/// The text of a lab entry: a line for each console line of its nodes, or
/// for each node without one, or for the lab where none of its nodes is
/// active.
pub open spec fn entry_text(e: ConsoleLabEntry) -> Seq<char> {
    match e.nodes {
        Err(st) => lab_inactive_line(e, st),
        Ok(nodes) => nodes_text(e, nodes@, nodes@.len() as int),
    }
}

impl ConsoleLabEntry {
    /// The entry as text (see `entry_text`).
    pub fn to_text(&self) -> (r: String)
        ensures
            r@ == entry_text(*self),
    {
        let title = debug_str(self.lab_title.as_str());
        let mut s = String::new();
        match &self.nodes {
            Err(st) => {
                s.append("[");
                s.append(self.owner.as_str());
                s.append("] /");
                s.append(self.lab_id.as_str());
                s.append("/- :: ");
                s.append(title.as_str());
                s.append("\t(not available, lab is ");
                s.append(state_name_str(*st));
                s.append(")\n");
                proof {
                    assert(s@ =~= lab_inactive_line(*self, *st));
                }
            },
            Ok(nodes) => {
                let mut i: usize = 0;
                while i < nodes.len()
                    invariant
                        i <= nodes@.len(),
                        self.nodes == Ok::<Vec<ConsoleNodeEntry>, State>(*nodes),
                        title@ == spec_debug_str(self.lab_title@),
                        s@ == nodes_text(*self, nodes@, i as int),
                    decreases nodes@.len() - i,
                {
                    let n = &nodes[i];
                    let ghost before = s@;
                    match &n.lines {
                        Err(st) => {
                            s.append("[");
                            s.append(self.owner.as_str());
                            s.append("] /");
                            s.append(self.lab_id.as_str());
                            s.append("/");
                            s.append(n.node_id.as_str());
                            s.append("/- :: ");
                            s.append(title.as_str());
                            s.append("/");
                            s.append(n.node_title.as_str());
                            s.append("\t(not available, device is ");
                            s.append(state_name_str(*st));
                            s.append(")\n");
                            proof {
                                assert(s@ =~= before + node_inactive_line(*self, *n, *st));
                            }
                        },
                        Ok(keys) => {
                            let mut k: usize = 0;
                            while k < keys.len()
                                invariant
                                    k <= keys@.len(),
                                    n.lines == Ok::<Vec<String>, State>(*keys),
                                    title@ == spec_debug_str(self.lab_title@),
                                    s@ == before + node_lines_text(*self, *n, keys@, k as int),
                                decreases keys@.len() - k,
                            {
                                let num = decimal_string(k as u64);
                                let ghost mid = s@;
                                s.append("[");
                                s.append(self.owner.as_str());
                                s.append("] /");
                                s.append(self.lab_id.as_str());
                                s.append("/");
                                s.append(n.node_id.as_str());
                                s.append("/");
                                s.append(num.as_str());
                                s.append(" :: ");
                                s.append(title.as_str());
                                s.append("/");
                                s.append(n.node_title.as_str());
                                s.append("\t(");
                                s.append(keys[k].as_str());
                                s.append(")\n");
                                proof {
                                    assert(s@ =~= mid + node_line_text(*self, *n, k as nat, keys@[k as int]@));
                                    assert(node_lines_text(*self, *n, keys@, k + 1) == node_lines_text(
                                        *self,
                                        *n,
                                        keys@,
                                        k as int,
                                    ) + node_line_text(*self, *n, k as nat, keys@[k as int]@));
                                }
                                k = k + 1;
                            }
                        },
                    }
                    proof {
                        assert(nodes_text(*self, nodes@, i + 1) == nodes_text(*self, nodes@, i as int)
                            + node_entry_text(*self, nodes@[i as int]));
                    }
                    i = i + 1;
                }
            },
        }
        s
    }
}

} // verus!
