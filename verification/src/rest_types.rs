//! The data model of the CML REST API.

use vstd::prelude::*;
use crate::strings::{str_eq, owned};

pub mod key;
pub mod labeled;
pub mod node_def_data;

use self::node_def_data::{General, Device, UI, Sim};

verus! {

/// The state of a device or lab.
#[derive(Debug, Clone, Copy, PartialEq, Eq, Structural, PartialOrd, Ord)]
pub enum State {
    /// The device/lab has been fully booted and is currently running.
    Booted,
    /// The device/lab is partially booted, or in the process of starting up.
    Started,
    /// The device is in a queue to be started up.
    Queued,
    /// The device is currently being stopped.
    Stopped,
    /// The device is not running, or queued to run.
    DefinedOnCore,
    DefinedOnCluster,
}

impl State {
    pub open spec fn is_active(self) -> bool {
        self is Booted || self is Started || self is Queued
    }

    pub fn active(&self) -> (r: bool)
        ensures
            r == self.is_active(),
    {
        match self {
            State::Booted | State::Started | State::Queued => true,
            _ => false,
        }
    }

    pub fn inactive(&self) -> (r: bool)
        ensures
            r == (*self is DefinedOnCluster || *self is DefinedOnCore || *self is Stopped),
    {
        match self {
            State::DefinedOnCluster | State::DefinedOnCore | State::Stopped => true,
            _ => false,
        }
    }

    /// The text that describes the state to a user.
    pub open spec fn display_text(self) -> Seq<char> {
        match self {
            State::Booted => "Booted"@,
            State::Started => "Started"@,
            State::Stopped => "Stopped"@,
            State::Queued => "Queued"@,
            State::DefinedOnCore => "Defined on Core"@,
            State::DefinedOnCluster => "Defiend on Cluster"@,
        }
    }

    /// The text that describes the state to a user.
    pub fn to_display_string(&self) -> (r: String)
        ensures
            r@ == self.display_text(),
    {
        owned(
            match self {
                State::Booted => "Booted",
                State::Started => "Started",
                State::Stopped => "Stopped",
                State::Queued => "Queued",
                State::DefinedOnCore => "Defined on Core",
                State::DefinedOnCluster => "Defiend on Cluster",
            },
        )
    }

    /// The name of the state in the REST API (`SCREAMING_SNAKE_CASE`).
    pub open spec fn api_text(self) -> Seq<char> {
        match self {
            State::Booted => "BOOTED"@,
            State::Started => "STARTED"@,
            State::Stopped => "STOPPED"@,
            State::Queued => "QUEUED"@,
            State::DefinedOnCore => "DEFINED_ON_CORE"@,
            State::DefinedOnCluster => "DEFINED_ON_CLUSTER"@,
        }
    }

    /// The name of the state in the REST API (`SCREAMING_SNAKE_CASE`).
    pub fn to_api_string(&self) -> (r: String)
        ensures
            r@ == self.api_text(),
    {
        owned(
            match self {
                State::Booted => "BOOTED",
                State::Started => "STARTED",
                State::Stopped => "STOPPED",
                State::Queued => "QUEUED",
                State::DefinedOnCore => "DEFINED_ON_CORE",
                State::DefinedOnCluster => "DEFINED_ON_CLUSTER",
            },
        )
    }

    /// The state named `s` in the REST API, if any.
    pub fn from_api_str(s: &str) -> (r: Option<State>)
        ensures
            r matches Some(st) ==> st.api_text() == s@,
            r is None ==> forall|st: State| st.api_text() != s@,
    {
        let all = [
            State::Booted,
            State::Started,
            State::Queued,
            State::Stopped,
            State::DefinedOnCore,
            State::DefinedOnCluster,
        ];
        let mut i: usize = 0;
        while i < 6
            invariant
                i <= 6,
                all@ == seq![State::Booted, State::Started, State::Queued, State::Stopped, State::DefinedOnCore, State::DefinedOnCluster],
                forall|j: int| 0 <= j < i ==> all@[j].api_text() != s@,
            decreases 6 - i,
        {
            let st = all[i];
            let text = st.to_api_string();
            if str_eq(text.as_str(), s) {
                return Some(st);
            }
            i = i + 1;
        }
        proof {
            assert forall|st: State| st.api_text() != s@ by {
                let j: int = match st {
                    State::Booted => 0,
                    State::Started => 1,
                    State::Queued => 2,
                    State::Stopped => 3,
                    State::DefinedOnCore => 4,
                    State::DefinedOnCluster => 5,
                };
                assert(all@[j] == st);
            }
        }
        None
    }
}

/// The kind of a node.
#[derive(Debug, PartialOrd, Ord)]
pub enum NodeDefinition {
    ASAv,
    IOSv,
    IOSvL2,
    IOSxrv,
    IOSxrv9000,
    NXosv,
    NXosv9000,
    CSR1000v,
    UnmanagedSwitch,
    ExternalConnector,
    WANEmulator,
    Alpine,
    TRex,
    CoreOS,
    Ubuntu,
    Server,
    Desktop,
    /// An unknown node definition.
    Unknown(String),
}

/// The number of node definitions with a known identifier.
pub const KNOWN_DEFINITIONS: u8 = 17;

/// The identifier that CML gives the known node definition number `k`.
pub open spec fn spec_known_id(k: int) -> Seq<char> {
    if k == 0 {
        "asav"@
    } else if k == 1 {
        "iosv"@
    } else if k == 2 {
        "iosvl2"@
    } else if k == 3 {
        "iosxrv"@
    } else if k == 4 {
        "iosxrv9000"@
    } else if k == 5 {
        "nxosv"@
    } else if k == 6 {
        "nxosv9000"@
    } else if k == 7 {
        "csr1000v"@
    } else if k == 8 {
        "unmanaged_switch"@
    } else if k == 9 {
        "external_connector"@
    } else if k == 10 {
        "wan_emulator"@
    } else if k == 11 {
        "alpine"@
    } else if k == 12 {
        "trex"@
    } else if k == 13 {
        "coreos"@
    } else if k == 14 {
        "ubuntu"@
    } else if k == 15 {
        "server"@
    } else {
        "desktop"@
    }
}

/// The first known node definition at or after `k` whose identifier is `s`.
pub open spec fn find_known_id(s: Seq<char>, k: int) -> Option<int>
    decreases 17 - k,
{
    if k < 0 || k >= 17 {
        None
    } else if spec_known_id(k) == s {
        Some(k)
    } else {
        find_known_id(s, k + 1)
    }
}

/// The known node definition number `k` (for `0 <= k < 17`).
pub open spec fn spec_known_definition(k: int) -> NodeDefinition {
    if k == 0 {
        NodeDefinition::ASAv
    } else if k == 1 {
        NodeDefinition::IOSv
    } else if k == 2 {
        NodeDefinition::IOSvL2
    } else if k == 3 {
        NodeDefinition::IOSxrv
    } else if k == 4 {
        NodeDefinition::IOSxrv9000
    } else if k == 5 {
        NodeDefinition::NXosv
    } else if k == 6 {
        NodeDefinition::NXosv9000
    } else if k == 7 {
        NodeDefinition::CSR1000v
    } else if k == 8 {
        NodeDefinition::UnmanagedSwitch
    } else if k == 9 {
        NodeDefinition::ExternalConnector
    } else if k == 10 {
        NodeDefinition::WANEmulator
    } else if k == 11 {
        NodeDefinition::Alpine
    } else if k == 12 {
        NodeDefinition::TRex
    } else if k == 13 {
        NodeDefinition::CoreOS
    } else if k == 14 {
        NodeDefinition::Ubuntu
    } else if k == 15 {
        NodeDefinition::Server
    } else {
        NodeDefinition::Desktop
    }
}

fn known_id(k: u8) -> (r: &'static str)
    requires
        k < 17,
    ensures
        r@ == spec_known_id(k as int),
{
    if k == 0 {
        "asav"
    } else if k == 1 {
        "iosv"
    } else if k == 2 {
        "iosvl2"
    } else if k == 3 {
        "iosxrv"
    } else if k == 4 {
        "iosxrv9000"
    } else if k == 5 {
        "nxosv"
    } else if k == 6 {
        "nxosv9000"
    } else if k == 7 {
        "csr1000v"
    } else if k == 8 {
        "unmanaged_switch"
    } else if k == 9 {
        "external_connector"
    } else if k == 10 {
        "wan_emulator"
    } else if k == 11 {
        "alpine"
    } else if k == 12 {
        "trex"
    } else if k == 13 {
        "coreos"
    } else if k == 14 {
        "ubuntu"
    } else if k == 15 {
        "server"
    } else {
        "desktop"
    }
}

fn known_definition(k: u8) -> (r: NodeDefinition)
    requires
        k < 17,
    ensures
        r == spec_known_definition(k as int),
{
    if k == 0 {
        NodeDefinition::ASAv
    } else if k == 1 {
        NodeDefinition::IOSv
    } else if k == 2 {
        NodeDefinition::IOSvL2
    } else if k == 3 {
        NodeDefinition::IOSxrv
    } else if k == 4 {
        NodeDefinition::IOSxrv9000
    } else if k == 5 {
        NodeDefinition::NXosv
    } else if k == 6 {
        NodeDefinition::NXosv9000
    } else if k == 7 {
        NodeDefinition::CSR1000v
    } else if k == 8 {
        NodeDefinition::UnmanagedSwitch
    } else if k == 9 {
        NodeDefinition::ExternalConnector
    } else if k == 10 {
        NodeDefinition::WANEmulator
    } else if k == 11 {
        NodeDefinition::Alpine
    } else if k == 12 {
        NodeDefinition::TRex
    } else if k == 13 {
        NodeDefinition::CoreOS
    } else if k == 14 {
        NodeDefinition::Ubuntu
    } else if k == 15 {
        NodeDefinition::Server
    } else {
        NodeDefinition::Desktop
    }
}

impl NodeDefinition {
    /// The position of the variant: 0 to 16 for the known definitions (in
    /// declaration order), 17 for `Unknown`.
    pub open spec fn kind_index(&self) -> int {
        match self {
            NodeDefinition::ASAv => 0,
            NodeDefinition::IOSv => 1,
            NodeDefinition::IOSvL2 => 2,
            NodeDefinition::IOSxrv => 3,
            NodeDefinition::IOSxrv9000 => 4,
            NodeDefinition::NXosv => 5,
            NodeDefinition::NXosv9000 => 6,
            NodeDefinition::CSR1000v => 7,
            NodeDefinition::UnmanagedSwitch => 8,
            NodeDefinition::ExternalConnector => 9,
            NodeDefinition::WANEmulator => 10,
            NodeDefinition::Alpine => 11,
            NodeDefinition::TRex => 12,
            NodeDefinition::CoreOS => 13,
            NodeDefinition::Ubuntu => 14,
            NodeDefinition::Server => 15,
            NodeDefinition::Desktop => 16,
            NodeDefinition::Unknown(_) => 17,
        }
    }

    /// The identifier CML uses for the node definition.
    pub open spec fn id_text(&self) -> Seq<char> {
        match self {
            NodeDefinition::Unknown(s) => s@,
            _ => spec_known_id(self.kind_index()),
        }
    }

    /// Equality of node definitions: the same variant, and for unknown
    /// definitions the same identifier.
    pub open spec fn same_as(&self, other: &NodeDefinition) -> bool {
        &&& self.kind_index() == other.kind_index()
        &&& (self is Unknown ==> self->Unknown_0@ == other->Unknown_0@)
    }

    pub fn kind(&self) -> (r: u8)
        ensures
            r == self.kind_index(),
    {
        match self {
            NodeDefinition::ASAv => 0,
            NodeDefinition::IOSv => 1,
            NodeDefinition::IOSvL2 => 2,
            NodeDefinition::IOSxrv => 3,
            NodeDefinition::IOSxrv9000 => 4,
            NodeDefinition::NXosv => 5,
            NodeDefinition::NXosv9000 => 6,
            NodeDefinition::CSR1000v => 7,
            NodeDefinition::UnmanagedSwitch => 8,
            NodeDefinition::ExternalConnector => 9,
            NodeDefinition::WANEmulator => 10,
            NodeDefinition::Alpine => 11,
            NodeDefinition::TRex => 12,
            NodeDefinition::CoreOS => 13,
            NodeDefinition::Ubuntu => 14,
            NodeDefinition::Server => 15,
            NodeDefinition::Desktop => 16,
            NodeDefinition::Unknown(_) => 17,
        }
    }

    pub open spec fn spec_is_ios(&self) -> bool {
        self is IOSv || self is IOSvL2 || self is IOSxrv || self is IOSxrv9000
    }

    pub open spec fn spec_is_asa(&self) -> bool {
        self is ASAv
    }

    pub open spec fn spec_is_linux(&self) -> bool {
        self is Alpine || self is TRex || self is CoreOS || self is Ubuntu || self is Server || self is Desktop
    }

    pub fn is_ios(&self) -> (r: bool)
        ensures
            r == self.spec_is_ios(),
    {
        match self {
            NodeDefinition::IOSv | NodeDefinition::IOSvL2 | NodeDefinition::IOSxrv | NodeDefinition::IOSxrv9000 => true,
            _ => false,
        }
    }

    pub fn is_asa(&self) -> (r: bool)
        ensures
            r == self.spec_is_asa(),
    {
        match self {
            NodeDefinition::ASAv => true,
            _ => false,
        }
    }

    pub fn is_linux(&self) -> (r: bool)
        ensures
            r == self.spec_is_linux(),
    {
        match self {
            NodeDefinition::Alpine | NodeDefinition::TRex | NodeDefinition::CoreOS | NodeDefinition::Ubuntu
            | NodeDefinition::Server | NodeDefinition::Desktop => true,
            _ => false,
        }
    }

    /// The identifier of an unknown node definition, `None` for a known one.
    pub fn is_unknown(&self) -> (r: Option<&str>)
        ensures
            r is Some <==> self is Unknown,
            r matches Some(s) ==> s@ == self->Unknown_0@,
    {
        match self {
            NodeDefinition::Unknown(ty) => Some(ty.as_str()),
            _ => None,
        }
    }

    /// The node definition with the CML identifier `s`; an identifier that
    /// is not known gives `Unknown`.
    pub fn from_cml_id(s: &str) -> (r: NodeDefinition)
        ensures
            match find_known_id(s@, 0) {
                Some(k) => r == spec_known_definition(k),
                None => r is Unknown && r->Unknown_0@ == s@,
            },
    {
        let mut k: u8 = 0;
        while k < KNOWN_DEFINITIONS
            invariant
                k <= 17,
                find_known_id(s@, 0) == find_known_id(s@, k as int),
            decreases 17 - k,
        {
            if str_eq(known_id(k), s) {
                return known_definition(k);
            }
            k = k + 1;
        }
        NodeDefinition::Unknown(owned(s))
    }

    /// The CML identifier of the node definition.
    pub fn to_cml_id(&self) -> (r: String)
        ensures
            r@ == self.id_text(),
    {
        match self {
            NodeDefinition::Unknown(unk) => unk.clone(),
            _ => owned(known_id(self.kind())),
        }
    }
}

impl PartialEq for NodeDefinition {
    fn eq(&self, other: &Self) -> (r: bool) {
        if self.kind() != other.kind() {
            false
        } else {
            match (self, other) {
                (NodeDefinition::Unknown(a), NodeDefinition::Unknown(b)) => str_eq(a.as_str(), b.as_str()),
                _ => true,
            }
        }
    }
}

impl vstd::std_specs::cmp::PartialEqSpecImpl for NodeDefinition {
    open spec fn obeys_eq_spec() -> bool {
        true
    }

    open spec fn eq_spec(&self, other: &Self) -> bool {
        self.same_as(other)
    }
}

impl Eq for NodeDefinition {
}

impl Clone for NodeDefinition {
    fn clone(&self) -> (r: Self)
        ensures
            r == *self,
    {
        match self {
            NodeDefinition::Unknown(s) => NodeDefinition::Unknown(s.clone()),
            NodeDefinition::ASAv => NodeDefinition::ASAv,
            NodeDefinition::IOSv => NodeDefinition::IOSv,
            NodeDefinition::IOSvL2 => NodeDefinition::IOSvL2,
            NodeDefinition::IOSxrv => NodeDefinition::IOSxrv,
            NodeDefinition::IOSxrv9000 => NodeDefinition::IOSxrv9000,
            NodeDefinition::NXosv => NodeDefinition::NXosv,
            NodeDefinition::NXosv9000 => NodeDefinition::NXosv9000,
            NodeDefinition::CSR1000v => NodeDefinition::CSR1000v,
            NodeDefinition::UnmanagedSwitch => NodeDefinition::UnmanagedSwitch,
            NodeDefinition::ExternalConnector => NodeDefinition::ExternalConnector,
            NodeDefinition::WANEmulator => NodeDefinition::WANEmulator,
            NodeDefinition::Alpine => NodeDefinition::Alpine,
            NodeDefinition::TRex => NodeDefinition::TRex,
            NodeDefinition::CoreOS => NodeDefinition::CoreOS,
            NodeDefinition::Ubuntu => NodeDefinition::Ubuntu,
            NodeDefinition::Server => NodeDefinition::Server,
            NodeDefinition::Desktop => NodeDefinition::Desktop,
        }
    }
}

proof fn lemma_known_ids_distinct(k: int)
    requires
        0 <= k < 17,
    ensures
        find_known_id(spec_known_id(k), 0) == Some(k),
{
    if k < 0 {
    } else if k == 0 {
        assert(find_known_id(spec_known_id(0), 0) == Some(0int)) by {
            reveal_strlit("asav");
            reveal_with_fuel(find_known_id, 2);
        }
    } else if k == 1 {
        assert(find_known_id(spec_known_id(1), 0) == Some(1int)) by {
            reveal_strlit("iosv");
            reveal_strlit("asav");
            assert(spec_known_id(0)[0] != spec_known_id(1)[0]);
            reveal_with_fuel(find_known_id, 3);
        }
    } else if k == 2 {
        assert(find_known_id(spec_known_id(2), 0) == Some(2int)) by {
            reveal_strlit("iosvl2");
            reveal_strlit("asav");
            reveal_strlit("iosv");
            assert(spec_known_id(0).len() != spec_known_id(2).len());
            assert(spec_known_id(1).len() != spec_known_id(2).len());
            reveal_with_fuel(find_known_id, 4);
        }
    } else if k == 3 {
        assert(find_known_id(spec_known_id(3), 0) == Some(3int)) by {
            reveal_strlit("iosxrv");
            reveal_strlit("asav");
            reveal_strlit("iosv");
            reveal_strlit("iosvl2");
            assert(spec_known_id(0).len() != spec_known_id(3).len());
            assert(spec_known_id(1).len() != spec_known_id(3).len());
            assert(spec_known_id(2)[3] != spec_known_id(3)[3]);
            reveal_with_fuel(find_known_id, 5);
        }
    } else if k == 4 {
        assert(find_known_id(spec_known_id(4), 0) == Some(4int)) by {
            reveal_strlit("iosxrv9000");
            reveal_strlit("asav");
            reveal_strlit("iosv");
            reveal_strlit("iosvl2");
            reveal_strlit("iosxrv");
            assert(spec_known_id(0).len() != spec_known_id(4).len());
            assert(spec_known_id(1).len() != spec_known_id(4).len());
            assert(spec_known_id(2).len() != spec_known_id(4).len());
            assert(spec_known_id(3).len() != spec_known_id(4).len());
            reveal_with_fuel(find_known_id, 6);
        }
    } else if k == 5 {
        assert(find_known_id(spec_known_id(5), 0) == Some(5int)) by {
            reveal_strlit("nxosv");
            reveal_strlit("asav");
            reveal_strlit("iosv");
            reveal_strlit("iosvl2");
            reveal_strlit("iosxrv");
            reveal_strlit("iosxrv9000");
            assert(spec_known_id(0).len() != spec_known_id(5).len());
            assert(spec_known_id(1).len() != spec_known_id(5).len());
            assert(spec_known_id(2).len() != spec_known_id(5).len());
            assert(spec_known_id(3).len() != spec_known_id(5).len());
            assert(spec_known_id(4).len() != spec_known_id(5).len());
            reveal_with_fuel(find_known_id, 7);
        }
    } else if k == 6 {
        assert(find_known_id(spec_known_id(6), 0) == Some(6int)) by {
            reveal_strlit("nxosv9000");
            reveal_strlit("asav");
            reveal_strlit("iosv");
            reveal_strlit("iosvl2");
            reveal_strlit("iosxrv");
            reveal_strlit("iosxrv9000");
            reveal_strlit("nxosv");
            assert(spec_known_id(0).len() != spec_known_id(6).len());
            assert(spec_known_id(1).len() != spec_known_id(6).len());
            assert(spec_known_id(2).len() != spec_known_id(6).len());
            assert(spec_known_id(3).len() != spec_known_id(6).len());
            assert(spec_known_id(4).len() != spec_known_id(6).len());
            assert(spec_known_id(5).len() != spec_known_id(6).len());
            reveal_with_fuel(find_known_id, 8);
        }
    } else if k == 7 {
        assert(find_known_id(spec_known_id(7), 0) == Some(7int)) by {
            reveal_strlit("csr1000v");
            reveal_strlit("asav");
            reveal_strlit("iosv");
            reveal_strlit("iosvl2");
            reveal_strlit("iosxrv");
            reveal_strlit("iosxrv9000");
            reveal_strlit("nxosv");
            reveal_strlit("nxosv9000");
            assert(spec_known_id(0).len() != spec_known_id(7).len());
            assert(spec_known_id(1).len() != spec_known_id(7).len());
            assert(spec_known_id(2).len() != spec_known_id(7).len());
            assert(spec_known_id(3).len() != spec_known_id(7).len());
            assert(spec_known_id(4).len() != spec_known_id(7).len());
            assert(spec_known_id(5).len() != spec_known_id(7).len());
            assert(spec_known_id(6).len() != spec_known_id(7).len());
            reveal_with_fuel(find_known_id, 9);
        }
    } else if k == 8 {
        assert(find_known_id(spec_known_id(8), 0) == Some(8int)) by {
            reveal_strlit("unmanaged_switch");
            reveal_strlit("asav");
            reveal_strlit("iosv");
            reveal_strlit("iosvl2");
            reveal_strlit("iosxrv");
            reveal_strlit("iosxrv9000");
            reveal_strlit("nxosv");
            reveal_strlit("nxosv9000");
            reveal_strlit("csr1000v");
            assert(spec_known_id(0).len() != spec_known_id(8).len());
            assert(spec_known_id(1).len() != spec_known_id(8).len());
            assert(spec_known_id(2).len() != spec_known_id(8).len());
            assert(spec_known_id(3).len() != spec_known_id(8).len());
            assert(spec_known_id(4).len() != spec_known_id(8).len());
            assert(spec_known_id(5).len() != spec_known_id(8).len());
            assert(spec_known_id(6).len() != spec_known_id(8).len());
            assert(spec_known_id(7).len() != spec_known_id(8).len());
            reveal_with_fuel(find_known_id, 10);
        }
    } else if k == 9 {
        assert(find_known_id(spec_known_id(9), 0) == Some(9int)) by {
            reveal_strlit("external_connector");
            reveal_strlit("asav");
            reveal_strlit("iosv");
            reveal_strlit("iosvl2");
            reveal_strlit("iosxrv");
            reveal_strlit("iosxrv9000");
            reveal_strlit("nxosv");
            reveal_strlit("nxosv9000");
            reveal_strlit("csr1000v");
            reveal_strlit("unmanaged_switch");
            assert(spec_known_id(0).len() != spec_known_id(9).len());
            assert(spec_known_id(1).len() != spec_known_id(9).len());
            assert(spec_known_id(2).len() != spec_known_id(9).len());
            assert(spec_known_id(3).len() != spec_known_id(9).len());
            assert(spec_known_id(4).len() != spec_known_id(9).len());
            assert(spec_known_id(5).len() != spec_known_id(9).len());
            assert(spec_known_id(6).len() != spec_known_id(9).len());
            assert(spec_known_id(7).len() != spec_known_id(9).len());
            assert(spec_known_id(8).len() != spec_known_id(9).len());
            reveal_with_fuel(find_known_id, 11);
        }
    } else if k == 10 {
        assert(find_known_id(spec_known_id(10), 0) == Some(10int)) by {
            reveal_strlit("wan_emulator");
            reveal_strlit("asav");
            reveal_strlit("iosv");
            reveal_strlit("iosvl2");
            reveal_strlit("iosxrv");
            reveal_strlit("iosxrv9000");
            reveal_strlit("nxosv");
            reveal_strlit("nxosv9000");
            reveal_strlit("csr1000v");
            reveal_strlit("unmanaged_switch");
            reveal_strlit("external_connector");
            assert(spec_known_id(0).len() != spec_known_id(10).len());
            assert(spec_known_id(1).len() != spec_known_id(10).len());
            assert(spec_known_id(2).len() != spec_known_id(10).len());
            assert(spec_known_id(3).len() != spec_known_id(10).len());
            assert(spec_known_id(4).len() != spec_known_id(10).len());
            assert(spec_known_id(5).len() != spec_known_id(10).len());
            assert(spec_known_id(6).len() != spec_known_id(10).len());
            assert(spec_known_id(7).len() != spec_known_id(10).len());
            assert(spec_known_id(8).len() != spec_known_id(10).len());
            assert(spec_known_id(9).len() != spec_known_id(10).len());
            reveal_with_fuel(find_known_id, 12);
        }
    } else if k == 11 {
        assert(find_known_id(spec_known_id(11), 0) == Some(11int)) by {
            reveal_strlit("alpine");
            reveal_strlit("asav");
            reveal_strlit("iosv");
            reveal_strlit("iosvl2");
            reveal_strlit("iosxrv");
            reveal_strlit("iosxrv9000");
            reveal_strlit("nxosv");
            reveal_strlit("nxosv9000");
            reveal_strlit("csr1000v");
            reveal_strlit("unmanaged_switch");
            reveal_strlit("external_connector");
            reveal_strlit("wan_emulator");
            assert(spec_known_id(0).len() != spec_known_id(11).len());
            assert(spec_known_id(1).len() != spec_known_id(11).len());
            assert(spec_known_id(2)[0] != spec_known_id(11)[0]);
            assert(spec_known_id(3)[0] != spec_known_id(11)[0]);
            assert(spec_known_id(4).len() != spec_known_id(11).len());
            assert(spec_known_id(5).len() != spec_known_id(11).len());
            assert(spec_known_id(6).len() != spec_known_id(11).len());
            assert(spec_known_id(7).len() != spec_known_id(11).len());
            assert(spec_known_id(8).len() != spec_known_id(11).len());
            assert(spec_known_id(9).len() != spec_known_id(11).len());
            assert(spec_known_id(10).len() != spec_known_id(11).len());
            reveal_with_fuel(find_known_id, 13);
        }
    } else if k == 12 {
        assert(find_known_id(spec_known_id(12), 0) == Some(12int)) by {
            reveal_strlit("trex");
            reveal_strlit("asav");
            reveal_strlit("iosv");
            reveal_strlit("iosvl2");
            reveal_strlit("iosxrv");
            reveal_strlit("iosxrv9000");
            reveal_strlit("nxosv");
            reveal_strlit("nxosv9000");
            reveal_strlit("csr1000v");
            reveal_strlit("unmanaged_switch");
            reveal_strlit("external_connector");
            reveal_strlit("wan_emulator");
            reveal_strlit("alpine");
            assert(spec_known_id(0)[0] != spec_known_id(12)[0]);
            assert(spec_known_id(1)[0] != spec_known_id(12)[0]);
            assert(spec_known_id(2).len() != spec_known_id(12).len());
            assert(spec_known_id(3).len() != spec_known_id(12).len());
            assert(spec_known_id(4).len() != spec_known_id(12).len());
            assert(spec_known_id(5).len() != spec_known_id(12).len());
            assert(spec_known_id(6).len() != spec_known_id(12).len());
            assert(spec_known_id(7).len() != spec_known_id(12).len());
            assert(spec_known_id(8).len() != spec_known_id(12).len());
            assert(spec_known_id(9).len() != spec_known_id(12).len());
            assert(spec_known_id(10).len() != spec_known_id(12).len());
            assert(spec_known_id(11).len() != spec_known_id(12).len());
            reveal_with_fuel(find_known_id, 14);
        }
    } else if k == 13 {
        assert(find_known_id(spec_known_id(13), 0) == Some(13int)) by {
            reveal_strlit("coreos");
            reveal_strlit("asav");
            reveal_strlit("iosv");
            reveal_strlit("iosvl2");
            reveal_strlit("iosxrv");
            reveal_strlit("iosxrv9000");
            reveal_strlit("nxosv");
            reveal_strlit("nxosv9000");
            reveal_strlit("csr1000v");
            reveal_strlit("unmanaged_switch");
            reveal_strlit("external_connector");
            reveal_strlit("wan_emulator");
            reveal_strlit("alpine");
            reveal_strlit("trex");
            assert(spec_known_id(0).len() != spec_known_id(13).len());
            assert(spec_known_id(1).len() != spec_known_id(13).len());
            assert(spec_known_id(2)[0] != spec_known_id(13)[0]);
            assert(spec_known_id(3)[0] != spec_known_id(13)[0]);
            assert(spec_known_id(4).len() != spec_known_id(13).len());
            assert(spec_known_id(5).len() != spec_known_id(13).len());
            assert(spec_known_id(6).len() != spec_known_id(13).len());
            assert(spec_known_id(7).len() != spec_known_id(13).len());
            assert(spec_known_id(8).len() != spec_known_id(13).len());
            assert(spec_known_id(9).len() != spec_known_id(13).len());
            assert(spec_known_id(10).len() != spec_known_id(13).len());
            assert(spec_known_id(11)[0] != spec_known_id(13)[0]);
            assert(spec_known_id(12).len() != spec_known_id(13).len());
            reveal_with_fuel(find_known_id, 15);
        }
    } else if k == 14 {
        assert(find_known_id(spec_known_id(14), 0) == Some(14int)) by {
            reveal_strlit("ubuntu");
            reveal_strlit("asav");
            reveal_strlit("iosv");
            reveal_strlit("iosvl2");
            reveal_strlit("iosxrv");
            reveal_strlit("iosxrv9000");
            reveal_strlit("nxosv");
            reveal_strlit("nxosv9000");
            reveal_strlit("csr1000v");
            reveal_strlit("unmanaged_switch");
            reveal_strlit("external_connector");
            reveal_strlit("wan_emulator");
            reveal_strlit("alpine");
            reveal_strlit("trex");
            reveal_strlit("coreos");
            assert(spec_known_id(0).len() != spec_known_id(14).len());
            assert(spec_known_id(1).len() != spec_known_id(14).len());
            assert(spec_known_id(2)[0] != spec_known_id(14)[0]);
            assert(spec_known_id(3)[0] != spec_known_id(14)[0]);
            assert(spec_known_id(4).len() != spec_known_id(14).len());
            assert(spec_known_id(5).len() != spec_known_id(14).len());
            assert(spec_known_id(6).len() != spec_known_id(14).len());
            assert(spec_known_id(7).len() != spec_known_id(14).len());
            assert(spec_known_id(8).len() != spec_known_id(14).len());
            assert(spec_known_id(9).len() != spec_known_id(14).len());
            assert(spec_known_id(10).len() != spec_known_id(14).len());
            assert(spec_known_id(11)[0] != spec_known_id(14)[0]);
            assert(spec_known_id(12).len() != spec_known_id(14).len());
            assert(spec_known_id(13)[0] != spec_known_id(14)[0]);
            reveal_with_fuel(find_known_id, 16);
        }
    } else if k == 15 {
        assert(find_known_id(spec_known_id(15), 0) == Some(15int)) by {
            reveal_strlit("server");
            reveal_strlit("asav");
            reveal_strlit("iosv");
            reveal_strlit("iosvl2");
            reveal_strlit("iosxrv");
            reveal_strlit("iosxrv9000");
            reveal_strlit("nxosv");
            reveal_strlit("nxosv9000");
            reveal_strlit("csr1000v");
            reveal_strlit("unmanaged_switch");
            reveal_strlit("external_connector");
            reveal_strlit("wan_emulator");
            reveal_strlit("alpine");
            reveal_strlit("trex");
            reveal_strlit("coreos");
            reveal_strlit("ubuntu");
            assert(spec_known_id(0).len() != spec_known_id(15).len());
            assert(spec_known_id(1).len() != spec_known_id(15).len());
            assert(spec_known_id(2)[0] != spec_known_id(15)[0]);
            assert(spec_known_id(3)[0] != spec_known_id(15)[0]);
            assert(spec_known_id(4).len() != spec_known_id(15).len());
            assert(spec_known_id(5).len() != spec_known_id(15).len());
            assert(spec_known_id(6).len() != spec_known_id(15).len());
            assert(spec_known_id(7).len() != spec_known_id(15).len());
            assert(spec_known_id(8).len() != spec_known_id(15).len());
            assert(spec_known_id(9).len() != spec_known_id(15).len());
            assert(spec_known_id(10).len() != spec_known_id(15).len());
            assert(spec_known_id(11)[0] != spec_known_id(15)[0]);
            assert(spec_known_id(12).len() != spec_known_id(15).len());
            assert(spec_known_id(13)[0] != spec_known_id(15)[0]);
            assert(spec_known_id(14)[0] != spec_known_id(15)[0]);
            reveal_with_fuel(find_known_id, 17);
        }
    } else if k == 16 {
        assert(find_known_id(spec_known_id(16), 0) == Some(16int)) by {
            reveal_strlit("desktop");
            reveal_strlit("asav");
            reveal_strlit("iosv");
            reveal_strlit("iosvl2");
            reveal_strlit("iosxrv");
            reveal_strlit("iosxrv9000");
            reveal_strlit("nxosv");
            reveal_strlit("nxosv9000");
            reveal_strlit("csr1000v");
            reveal_strlit("unmanaged_switch");
            reveal_strlit("external_connector");
            reveal_strlit("wan_emulator");
            reveal_strlit("alpine");
            reveal_strlit("trex");
            reveal_strlit("coreos");
            reveal_strlit("ubuntu");
            reveal_strlit("server");
            assert(spec_known_id(0).len() != spec_known_id(16).len());
            assert(spec_known_id(1).len() != spec_known_id(16).len());
            assert(spec_known_id(2).len() != spec_known_id(16).len());
            assert(spec_known_id(3).len() != spec_known_id(16).len());
            assert(spec_known_id(4).len() != spec_known_id(16).len());
            assert(spec_known_id(5).len() != spec_known_id(16).len());
            assert(spec_known_id(6).len() != spec_known_id(16).len());
            assert(spec_known_id(7).len() != spec_known_id(16).len());
            assert(spec_known_id(8).len() != spec_known_id(16).len());
            assert(spec_known_id(9).len() != spec_known_id(16).len());
            assert(spec_known_id(10).len() != spec_known_id(16).len());
            assert(spec_known_id(11).len() != spec_known_id(16).len());
            assert(spec_known_id(12).len() != spec_known_id(16).len());
            assert(spec_known_id(13).len() != spec_known_id(16).len());
            assert(spec_known_id(14).len() != spec_known_id(16).len());
            assert(spec_known_id(15).len() != spec_known_id(16).len());
            reveal_with_fuel(find_known_id, 18);
        }
    }
}

/// Reading back the identifier of a node definition gives the definition
/// again: a known definition is found by its identifier, and an unknown one
/// keeps its identifier, unless that identifier is one of the known ones.
pub proof fn law_definition_roundtrip(d: NodeDefinition)
    requires
        d is Unknown ==> find_known_id(d.id_text(), 0) is None,
    ensures
        match find_known_id(d.id_text(), 0) {
            Some(k) => spec_known_definition(k) == d,
            None => d is Unknown && d->Unknown_0@ == d.id_text(),
        },
{
    if !(d is Unknown) {
        lemma_known_ids_distinct(d.kind_index());
    }
}

/// Each known node definition is printed as its own CML identifier, and that
/// identifier is parsed back to it: `asav` is ASAv, `iosv` IOSv, `iosvl2`
/// IOSvL2, `iosxrv` IOSxrv, and so on through `desktop`; an unknown
/// definition is printed as the identifier it holds.
pub proof fn law_definition_ids(d: NodeDefinition)
    ensures
        ({
            let id = match d {
                NodeDefinition::ASAv => "asav"@,
                NodeDefinition::IOSv => "iosv"@,
                NodeDefinition::IOSvL2 => "iosvl2"@,
                NodeDefinition::IOSxrv => "iosxrv"@,
                NodeDefinition::IOSxrv9000 => "iosxrv9000"@,
                NodeDefinition::NXosv => "nxosv"@,
                NodeDefinition::NXosv9000 => "nxosv9000"@,
                NodeDefinition::CSR1000v => "csr1000v"@,
                NodeDefinition::UnmanagedSwitch => "unmanaged_switch"@,
                NodeDefinition::ExternalConnector => "external_connector"@,
                NodeDefinition::WANEmulator => "wan_emulator"@,
                NodeDefinition::Alpine => "alpine"@,
                NodeDefinition::TRex => "trex"@,
                NodeDefinition::CoreOS => "coreos"@,
                NodeDefinition::Ubuntu => "ubuntu"@,
                NodeDefinition::Server => "server"@,
                NodeDefinition::Desktop => "desktop"@,
                NodeDefinition::Unknown(s) => s@,
            };
            &&& d.id_text() == id
            &&& !(d is Unknown) ==> (find_known_id(id, 0) matches Some(k) && spec_known_definition(k) == d)
        }),
{
    if !(d is Unknown) {
        lemma_known_ids_distinct(d.kind_index());
    }
}

impl std::str::FromStr for NodeDefinition {
    type Err = std::convert::Infallible;

    fn from_str(s: &str) -> (r: Result<NodeDefinition, Self::Err>)
        ensures
            r matches Ok(d) && match find_known_id(s@, 0) {
                Some(k) => d == spec_known_definition(k),
                None => d is Unknown && d->Unknown_0@ == s@,
            },
    {
        Ok(NodeDefinition::from_cml_id(s))
    }
}

#[derive(Debug, Clone)]
pub struct Lab {
    pub id: String,
    pub state: State,
    pub created: String,
    pub title: String,
    pub owner: String,
    pub description: String,
    pub node_count: isize,
    pub link_count: isize,
}

#[derive(Debug, Clone)]
pub struct SimpleNode {
    pub id: String,
    pub label: String,
    pub x: isize,
    pub y: isize,
    pub node_definition: NodeDefinition,
    pub image_definition: Option<String>,
    pub state: State,
    pub cpus: Option<isize>,
    pub cpu_limit: Option<isize>,
    pub ram: Option<isize>,
    pub data_volume: Option<String>,
    pub boot_disk_size: Option<isize>,
    pub tags: Vec<String>,
}

/// The topology of a lab. (The creation timestamp, a float in the REST API,
/// is not part of the library's model.)
#[derive(Debug, Clone)]
pub struct LabTopology {
    pub title: String,
    pub notes: String,
    pub description: String,
    pub owner: String,
    pub state: State,
    pub cluster_id: Option<String>,
    pub version: String,
    pub nodes: Vec<labeled::Data<NodeDescription>>,
    pub links: Vec<labeled::Link<LinkDescription>>,
    pub interfaces: Vec<labeled::Interface<InterfaceDescription>>,
}

#[derive(Debug, Clone)]
pub struct NodeDescription {
    pub x: isize,
    pub y: isize,
    pub label: String,
    pub node_definition: NodeDefinition,
    pub image_definition: Option<String>,
    pub state: State,
    pub configuration: Option<String>,
    pub cpus: Option<isize>,
    pub cpu_limit: Option<isize>,
    pub ram: Option<isize>,
    pub data_volume: Option<String>,
    pub boot_disk_size: Option<isize>,
    pub tags: Vec<String>,
}

#[derive(Debug, Clone)]
pub struct LinkDescription {
    pub state: State,
}

#[derive(Debug, Clone)]
pub struct InterfaceDescription {
    /// physical, loopback, etc
    pub mode: String,
    pub int_label: String,
    pub slot: Option<u64>,
    pub state: State,
}

#[derive(Debug, Clone)]
pub struct SimpleNodeDefinition {
    pub id: NodeDefinition,
    pub image_definitions: Vec<String>,
    pub data: SimpleNodeDefData,
}

#[derive(Debug, Clone)]
pub struct SimpleNodeDefData {
    pub general: General,
    pub device: Device,
    pub ui: UI,
    pub sim: Sim,
}

} // verus!
