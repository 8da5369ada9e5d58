//! Resolving a lab/node descriptor to a node, and a node to a console line.

use vstd::prelude::*;
use crate::rest_types::{LabTopology, NodeDescription, NodeDefinition, SimpleNodeDefinition, State};
use crate::rest_types::labeled;
use crate::rest_types::key::Console;
use crate::strings::{owned, str_eq};

verus! {

#[derive(Debug, Clone, Copy, PartialEq, Eq)]
pub enum NodeSearchError {
    /// No lab matching the desired lab descriptor
    NoMatchingLab,
    /// No node matching the desired node descriptor within the specified lab
    NoMatchingNode,
    /// Multiple labs matched by lab title
    MultipleMatchingLabs,
    /// Multiple nodes matched by node title within the lab
    MultipleMatchingNodes,
}

#[derive(Debug, Clone, Copy, PartialEq, Eq)]
pub enum ConsoleSearchError {
    /// Unable to find a device with the specified lab/node descriptors
    BadDeviceQuery(NodeSearchError),
    /// Node does not have any active lines for the specified line number
    NoMatchingLines,
    /// Node is not currently active
    NodeNotActive,
    /// Node does not provide console lines
    Unsupported,
}

impl From<NodeSearchError> for ConsoleSearchError {
    fn from(e: NodeSearchError) -> (r: ConsoleSearchError) {
        ConsoleSearchError::BadDeviceQuery(e)
    }
}

impl vstd::std_specs::convert::FromSpecImpl<NodeSearchError> for ConsoleSearchError {
    open spec fn obeys_from_spec() -> bool {
        true
    }

    open spec fn from_spec(e: NodeSearchError) -> ConsoleSearchError {
        ConsoleSearchError::BadDeviceQuery(e)
    }
}

// ---------------------------------------------------------------------------
// Matching by identifier or label
// ---------------------------------------------------------------------------

/// Things found by an identifier or a label.
pub trait NamedMatcher: Sized {
    spec fn spec_id(&self) -> Seq<char>;

    spec fn spec_label(&self) -> Seq<char>;

    spec fn spec_none_found() -> NodeSearchError;

    spec fn spec_multiple_found() -> NodeSearchError;

    fn none_found() -> (r: NodeSearchError)
        ensures
            r == Self::spec_none_found(),
    ;

    fn multiple_found() -> (r: NodeSearchError)
        ensures
            r == Self::spec_multiple_found(),
    ;

    fn id(&self) -> (r: &str)
        ensures
            r@ == self.spec_id(),
    ;

    fn label(&self) -> (r: &str)
        ensures
            r@ == self.spec_label(),
    ;
}

/// The identifiers and labels of a sequence of things.
pub open spec fn keys_of<N: NamedMatcher>(s: Seq<N>) -> Seq<(Seq<char>, Seq<char>)> {
    s.map_values(|n: N| (n.spec_id(), n.spec_label()))
}

pub open spec fn is_match(k: (Seq<char>, Seq<char>), d: Seq<char>) -> bool {
    k.0 == d || k.1 == d
}

/// The first index at or after `i` whose key matches `d`, or the length.
pub open spec fn next_match(keys: Seq<(Seq<char>, Seq<char>)>, d: Seq<char>, i: int) -> int
    decreases keys.len() - i,
{
    if i < 0 || i >= keys.len() {
        keys.len() as int
    } else if is_match(keys[i], d) {
        i
    } else {
        next_match(keys, d, i + 1)
    }
}

/// The first index at or after `i` whose identifier is `d`, or the length.
pub open spec fn next_id(keys: Seq<(Seq<char>, Seq<char>)>, d: Seq<char>, i: int) -> int
    decreases keys.len() - i,
{
    if i < 0 || i >= keys.len() {
        keys.len() as int
    } else if keys[i].0 == d {
        i
    } else {
        next_id(keys, d, i + 1)
    }
}

/// Which thing a descriptor picks: the one thing whose identifier or label it
/// is; where several match, the first whose identifier it is. `Err(false)`
/// where none matches, `Err(true)` where several match by label alone.
pub open spec fn spec_find_single(keys: Seq<(Seq<char>, Seq<char>)>, d: Seq<char>) -> Result<int, bool> {
    let f = next_match(keys, d, 0);
    if f >= keys.len() {
        Err(false)
    } else if next_match(keys, d, f + 1) >= keys.len() {
        Ok(f)
    } else if next_id(keys, d, 0) < keys.len() {
        Ok(next_id(keys, d, 0))
    } else {
        Err(true)
    }
}

proof fn lemma_next_bounds(keys: Seq<(Seq<char>, Seq<char>)>, d: Seq<char>, i: int)
    requires
        0 <= i <= keys.len(),
    ensures
        i <= next_match(keys, d, i) <= keys.len(),
        i <= next_id(keys, d, i) <= keys.len(),
    decreases keys.len() - i,
{
    if i < keys.len() {
        lemma_next_bounds(keys, d, i + 1);
    }
}

proof fn lemma_next_match_first(keys: Seq<(Seq<char>, Seq<char>)>, d: Seq<char>, i: int)
    requires
        0 <= i <= keys.len(),
    ensures
        ({
            let r = next_match(keys, d, i);
            &&& i <= r <= keys.len()
            &&& r < keys.len() ==> is_match(keys[r], d)
            &&& forall|k: int| i <= k < r ==> !is_match(#[trigger] keys[k], d)
        }),
    decreases keys.len() - i,
{
    if i < keys.len() && !is_match(keys[i], d) {
        lemma_next_match_first(keys, d, i + 1);
    }
}

proof fn lemma_next_id_first(keys: Seq<(Seq<char>, Seq<char>)>, d: Seq<char>, i: int)
    requires
        0 <= i <= keys.len(),
    ensures
        ({
            let r = next_id(keys, d, i);
            &&& i <= r <= keys.len()
            &&& r < keys.len() ==> keys[r].0 == d
            &&& forall|k: int| i <= k < r ==> (#[trigger] keys[k]).0 != d
        }),
    decreases keys.len() - i,
{
    if i < keys.len() && keys[i].0 != d {
        lemma_next_id_first(keys, d, i + 1);
    }
}

/// A descriptor picks what it names: where nothing matches it by identifier
/// or label, that is an error; where one thing does, that thing; where several
/// do, the first whose identifier it is (identifiers win), and an error
/// where none of them has it as identifier.
pub proof fn law_find_single(keys: Seq<(Seq<char>, Seq<char>)>, d: Seq<char>)
    ensures
        (forall|i: int| 0 <= i < keys.len() ==> !is_match(#[trigger] keys[i], d)) <==> spec_find_single(keys, d)
            == Err::<int, bool>(false),
        forall|i: int|
            0 <= i < keys.len() && is_match(#[trigger] keys[i], d) && (forall|j: int|
                0 <= j < keys.len() && j != i ==> !is_match(#[trigger] keys[j], d)) ==> spec_find_single(keys, d)
                == Ok::<int, bool>(i),
        forall|i: int, j: int|
            0 <= i < j < keys.len() && is_match(#[trigger] keys[i], d) && is_match(#[trigger] keys[j], d) ==> match spec_find_single(keys, d) {
                Ok(k) => 0 <= k < keys.len() && keys[k].0 == d && forall|m: int| 0 <= m < k ==> (#[trigger] keys[m]).0 != d,
                Err(several) => several && forall|m: int| 0 <= m < keys.len() ==> (#[trigger] keys[m]).0 != d,
            },
{
    lemma_next_match_first(keys, d, 0);
    let f = next_match(keys, d, 0);
    if f < keys.len() {
        lemma_next_match_first(keys, d, f + 1);
    }
    lemma_next_id_first(keys, d, 0);
}

fn next_match_exec<N: NamedMatcher>(s: &Vec<N>, d: &str, i: usize) -> (r: usize)
    requires
        i <= s@.len(),
    ensures
        r == next_match(keys_of(s@), d@, i as int),
{
    let ghost keys = keys_of(s@);
    let mut j = i;
    while j < s.len()
        invariant
            i <= j <= s@.len(),
            keys == keys_of(s@),
            next_match(keys, d@, i as int) == next_match(keys, d@, j as int),
        decreases s@.len() - j,
    {
        let n = &s[j];
        if str_eq(n.id(), d) || str_eq(n.label(), d) {
            return j;
        }
        j = j + 1;
    }
    j
}

fn next_id_exec<N: NamedMatcher>(s: &Vec<N>, d: &str) -> (r: usize)
    ensures
        r == next_id(keys_of(s@), d@, 0),
{
    let ghost keys = keys_of(s@);
    let mut j: usize = 0;
    while j < s.len()
        invariant
            j <= s@.len(),
            keys == keys_of(s@),
            next_id(keys, d@, 0) == next_id(keys, d@, j as int),
        decreases s@.len() - j,
    {
        if str_eq(s[j].id(), d) {
            return j;
        }
        j = j + 1;
    }
    j
}

/// Picks the one thing that a descriptor names, as `spec_find_single` says.
pub fn find_single<N: NamedMatcher>(s: Vec<N>, desc: &str) -> (r: Result<N, NodeSearchError>)
    ensures
        match spec_find_single(keys_of(s@), desc@) {
            Ok(i) => r == Ok::<N, NodeSearchError>(s@[i]),
            Err(multiple) => r == Err::<N, NodeSearchError>(
                if multiple { N::spec_multiple_found() } else { N::spec_none_found() },
            ),
        },
{
    let ghost keys = keys_of(s@);
    let f = next_match_exec(&s, desc, 0);
    if f >= s.len() {
        return Err(N::none_found());
    }
    let g = next_match_exec(&s, desc, f + 1);
    let mut s = s;
    if g >= s.len() {
        return Ok(s.remove(f));
    }
    let i = next_id_exec(&s, desc);
    if i < s.len() {
        Ok(s.remove(i))
    } else {
        Err(N::multiple_found())
    }
}

/// A lab, by its identifier and topology.
impl NamedMatcher for (String, LabTopology) {
    open spec fn spec_id(&self) -> Seq<char> {
        self.0@
    }

    open spec fn spec_label(&self) -> Seq<char> {
        self.1.title@
    }

    open spec fn spec_none_found() -> NodeSearchError {
        NodeSearchError::NoMatchingLab
    }

    open spec fn spec_multiple_found() -> NodeSearchError {
        NodeSearchError::MultipleMatchingLabs
    }

    fn none_found() -> (r: NodeSearchError) {
        NodeSearchError::NoMatchingLab
    }

    fn multiple_found() -> (r: NodeSearchError) {
        NodeSearchError::MultipleMatchingLabs
    }

    fn id(&self) -> (r: &str) {
        self.0.as_str()
    }

    fn label(&self) -> (r: &str) {
        self.1.title.as_str()
    }
}

impl NamedMatcher for labeled::Data<NodeDescription> {
    open spec fn spec_id(&self) -> Seq<char> {
        self.id@
    }

    open spec fn spec_label(&self) -> Seq<char> {
        self.data.label@
    }

    open spec fn spec_none_found() -> NodeSearchError {
        NodeSearchError::NoMatchingNode
    }

    open spec fn spec_multiple_found() -> NodeSearchError {
        NodeSearchError::MultipleMatchingNodes
    }

    fn none_found() -> (r: NodeSearchError) {
        NodeSearchError::NoMatchingNode
    }

    fn multiple_found() -> (r: NodeSearchError) {
        NodeSearchError::MultipleMatchingNodes
    }

    fn id(&self) -> (r: &str) {
        self.id.as_str()
    }

    fn label(&self) -> (r: &str) {
        self.data.label.as_str()
    }
}

// ---------------------------------------------------------------------------
// Nodes and console lines
// ---------------------------------------------------------------------------

/// A node found on a CML server.
#[derive(Debug)]
pub struct NodeCtx {
    host: String,
    user: String,
    lab: (String, String),
    node: (String, String),
    meta: NodeDescription,
}

impl NodeCtx {
    pub closed spec fn spec_host(&self) -> Seq<char> {
        self.host@
    }

    pub closed spec fn spec_user(&self) -> Seq<char> {
        self.user@
    }

    /// The lab's identifier and title.
    pub closed spec fn spec_lab(&self) -> (Seq<char>, Seq<char>) {
        (self.lab.0@, self.lab.1@)
    }

    /// The node's identifier and label.
    pub closed spec fn spec_node(&self) -> (Seq<char>, Seq<char>) {
        (self.node.0@, self.node.1@)
    }

    pub closed spec fn spec_meta(&self) -> NodeDescription {
        self.meta
    }

    pub fn host(&self) -> (r: &str)
        ensures
            r@ == self.spec_host(),
    {
        self.host.as_str()
    }

    pub fn user(&self) -> (r: &str)
        ensures
            r@ == self.spec_user(),
    {
        self.user.as_str()
    }

    pub fn lab(&self) -> (r: (&str, &str))
        ensures
            (r.0@, r.1@) == self.spec_lab(),
    {
        (self.lab.0.as_str(), self.lab.1.as_str())
    }

    pub fn node(&self) -> (r: (&str, &str))
        ensures
            (r.0@, r.1@) == self.spec_node(),
    {
        (self.node.0.as_str(), self.node.1.as_str())
    }

    pub fn meta(&self) -> (r: &NodeDescription)
        ensures
            *r == self.spec_meta(),
    {
        &self.meta
    }

    /// Finds the node that `device` names within the lab that `lab` names,
    /// among `labs` (identifier and topology of each lab on the server).
    pub fn search(host: &str, user: &str, labs: Vec<(String, LabTopology)>, lab: &str, device: &str) -> (r: Result<
        NodeCtx,
        NodeSearchError,
    >)
        ensures
            match spec_find_single(keys_of(labs@), lab@) {
                Err(multiple) => r == Err::<NodeCtx, NodeSearchError>(
                    if multiple { NodeSearchError::MultipleMatchingLabs } else { NodeSearchError::NoMatchingLab },
                ),
                Ok(i) => {
                    let topo = labs@[i].1;
                    match spec_find_single(keys_of(topo.nodes@), device@) {
                        Err(multiple) => r == Err::<NodeCtx, NodeSearchError>(
                            if multiple {
                                NodeSearchError::MultipleMatchingNodes
                            } else {
                                NodeSearchError::NoMatchingNode
                            },
                        ),
                        Ok(j) => r matches Ok(ctx) && ctx.spec_host() == host@ && ctx.spec_user() == user@
                            && ctx.spec_lab() == (labs@[i].0@, topo.title@) && ctx.spec_node() == (
                            topo.nodes@[j].id@,
                            topo.nodes@[j].data.label@,
                        ) && ctx.spec_meta() == topo.nodes@[j].data,
                    }
                },
            },
    {
        let (lab_id, topo) = match find_single(labs, lab) {
            Err(e) => {
                return Err(e);
            },
            Ok(l) => l,
        };
        let LabTopology { title, nodes, .. } = topo;
        let node = match find_single(nodes, device) {
            Err(e) => {
                return Err(e);
            },
            Ok(n) => n,
        };
        let labeled::Data { id, data } = node;
        let label = data.label.clone();
        Ok(NodeCtx {
            host: owned(host),
            user: owned(user),
            lab: (lab_id, title),
            node: (id, label),
            meta: data,
        })
    }
}

/// A console line of a node.
#[derive(Debug)]
pub struct ConsoleCtx {
    node: NodeCtx,
    line: u64,
    uuid: String,
}

/// Whether a console key belongs to the node, on the requested line if any.
pub open spec fn is_candidate(node: &NodeCtx, line: Option<u64>, k: (String, Console)) -> bool {
    &&& k.1.lab_id@ == node.spec_lab().0
    &&& k.1.node_id@ == node.spec_node().0
    &&& (line matches Some(l) ==> k.1.line == l)
}

/// Whether some console key of `keys` belongs to the node.
pub open spec fn has_candidate(node: &NodeCtx, line: Option<u64>, keys: Seq<(String, Console)>) -> bool {
    exists|i: int| 0 <= i < keys.len() && is_candidate(node, line, #[trigger] keys[i])
}

/// The key of `keys` that a console line is taken from: the first of the
/// node's keys with the least line number.
pub open spec fn is_chosen(node: &NodeCtx, line: Option<u64>, keys: Seq<(String, Console)>, i: int) -> bool {
    &&& 0 <= i < keys.len()
    &&& is_candidate(node, line, keys[i])
    &&& forall|j: int| 0 <= j < keys.len() && is_candidate(node, line, #[trigger] keys[j]) ==> keys[j].1.line
        >= keys[i].1.line
    &&& forall|j: int| 0 <= j < i && is_candidate(node, line, #[trigger] keys[j]) ==> keys[j].1.line > keys[i].1.line
}

/// The first definition of `defs` for the node's kind.
pub open spec fn first_definition(defs: Seq<SimpleNodeDefinition>, def: NodeDefinition, i: int) -> int
    decreases defs.len() - i,
{
    if i < 0 || i >= defs.len() {
        defs.len() as int
    } else if defs[i].id.same_as(&def) {
        i
    } else {
        first_definition(defs, def, i + 1)
    }
}

impl ConsoleCtx {
    pub closed spec fn spec_node(&self) -> NodeCtx {
        self.node
    }

    pub closed spec fn spec_line(&self) -> u64 {
        self.line
    }

    pub closed spec fn spec_uuid(&self) -> Seq<char> {
        self.uuid@
    }

    pub fn node(&self) -> (r: &NodeCtx)
        ensures
            *r == self.spec_node(),
    {
        &self.node
    }

    pub fn line(&self) -> (r: &u64)
        ensures
            *r == self.spec_line(),
    {
        &self.line
    }

    pub fn uuid(&self) -> (r: &str)
        ensures
            r@ == self.spec_uuid(),
    {
        self.uuid.as_str()
    }

    /// Where no key belongs to an active node, whether the node's
    /// definition is listed, and, where it provides console lines, whether a
    /// line was asked for.
    pub open spec fn can_search(
        node: &NodeCtx,
        line: Option<u64>,
        keys: Seq<(String, Console)>,
        defs: Seq<SimpleNodeDefinition>,
    ) -> bool {
        (!has_candidate(node, line, keys) && node.spec_meta().state.is_active()) ==> {
            let d = first_definition(defs, node.spec_meta().node_definition, 0);
            d < defs.len() && (defs[d].data.sim.console ==> line is Some)
        }
    }

    /// Finds the console line of a node among the console `keys` of the
    /// server (key and line of each). The node's definition is looked up
    /// in `defs` only where the node has no line.
    pub fn search(
        node: NodeCtx,
        line: Option<u64>,
        keys: &Vec<(String, Console)>,
        defs: &Vec<SimpleNodeDefinition>,
    ) -> (r: Result<ConsoleCtx, ConsoleSearchError>)
        requires
            Self::can_search(&node, line, keys@, defs@),
        ensures
            has_candidate(&node, line, keys@) ==> (r matches Ok(c) && exists|i: int|
                is_chosen(&node, line, keys@, i) && c.spec_uuid() == keys@[i].0@ && c.spec_line()
                    == keys@[i].1.line && c.spec_node() == node),
            !has_candidate(&node, line, keys@) ==> r is Err,
            (!has_candidate(&node, line, keys@) && !node.spec_meta().state.is_active()) ==> r == Err::<
                ConsoleCtx,
                ConsoleSearchError,
            >(ConsoleSearchError::NodeNotActive),
            (!has_candidate(&node, line, keys@) && node.spec_meta().state.is_active()) ==> r == Err::<
                ConsoleCtx,
                ConsoleSearchError,
            >(
                if defs@[first_definition(defs@, node.spec_meta().node_definition, 0)].data.sim.console {
                    ConsoleSearchError::NoMatchingLines
                } else {
                    ConsoleSearchError::Unsupported
                },
            ),
    {
        let mut best: Option<usize> = None;
        let mut i: usize = 0;
        while i < keys.len()
            invariant
                i <= keys@.len(),
                best is None <==> !(exists|j: int| 0 <= j < i && is_candidate(&node, line, #[trigger] keys@[j])),
                best matches Some(b) ==> (b < i && is_candidate(&node, line, keys@[b as int]) && (forall|j: int|
                    0 <= j < i && is_candidate(&node, line, #[trigger] keys@[j]) ==> keys@[j].1.line
                        >= keys@[b as int].1.line) && (forall|j: int|
                    0 <= j < b && is_candidate(&node, line, #[trigger] keys@[j]) ==> keys@[j].1.line
                        > keys@[b as int].1.line)),
            decreases keys@.len() - i,
        {
            let k = &keys[i];
            let cand = str_eq(k.1.lab_id.as_str(), node.lab.0.as_str()) && str_eq(
                k.1.node_id.as_str(),
                node.node.0.as_str(),
            ) && match line {
                Some(l) => k.1.line == l,
                None => true,
            };
            if cand {
                match best {
                    None => {
                        best = Some(i);
                    },
                    Some(b) => {
                        if k.1.line < keys[b].1.line {
                            best = Some(i);
                        }
                    },
                }
            }
            i = i + 1;
        }
        match best {
            Some(b) => {
                let l = keys[b].1.line;
                let uuid = keys[b].0.clone();
                proof {
                    assert(is_chosen(&node, line, keys@, b as int));
                }
                Ok(ConsoleCtx { node, line: l, uuid })
            },
            None => {
                if !node.meta.state.active() {
                    return Err(ConsoleSearchError::NodeNotActive);
                }
                let mut d: usize = 0;
                while d < defs.len() && !(defs[d].id == node.meta.node_definition)
                    invariant
                        d <= defs@.len(),
                        first_definition(defs@, node.spec_meta().node_definition, 0) == first_definition(
                            defs@,
                            node.spec_meta().node_definition,
                            d as int,
                        ),
                    decreases defs@.len() - d,
                {
                    d = d + 1;
                }
                if defs[d].data.sim.console {
                    Err(ConsoleSearchError::NoMatchingLines)
                } else {
                    Err(ConsoleSearchError::Unsupported)
                }
            },
        }
    }
}

} // verus!
