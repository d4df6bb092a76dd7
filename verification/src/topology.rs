//! Topologies: which of the connected displays show which part of the desktop.

use vstd::prelude::*;

use crate::config::{
    QDC_DATABASE_CURRENT, SDC_TOPOLOGY_CLONE, SDC_TOPOLOGY_EXTEND, SDC_TOPOLOGY_EXTERNAL,
    SDC_TOPOLOGY_INTERNAL, SDC_VALIDATE,
};
use crate::error::DisplayError;
use crate::query::{buffer_sizes, queried_config};
use crate::text::same_text;
use crate::types::unknown_number_text;

verus! {

/// The number of the internal topology in the topology database.
pub const TOPOLOGY_ID_INTERNAL: i32 = 1;

/// The number of the clone topology in the topology database.
pub const TOPOLOGY_ID_CLONE: i32 = 2;

/// The number of the extend topology in the topology database.
pub const TOPOLOGY_ID_EXTEND: i32 = 4;

/// The number of the external topology in the topology database.
pub const TOPOLOGY_ID_EXTERNAL: i32 = 8;

/// How the connected displays share the desktop.
#[derive(Clone, Copy, Debug, PartialEq, Eq, Structural)]
pub enum Topology {
    /// The primary display only.
    Internal,
    /// The same picture on each display.
    Clone,
    /// A part of the desktop on each display.
    Extend,
    /// The secondary display only.
    External,
    /// Any other number.
    Unknown(i32),
}

impl Topology {
    /// The topology with a number in the topology database.
    pub open spec fn of_id(id: i32) -> Topology {
        if id == TOPOLOGY_ID_INTERNAL {
            Topology::Internal
        } else if id == TOPOLOGY_ID_CLONE {
            Topology::Clone
        } else if id == TOPOLOGY_ID_EXTEND {
            Topology::Extend
        } else if id == TOPOLOGY_ID_EXTERNAL {
            Topology::External
        } else {
            Topology::Unknown(id)
        }
    }

    /// The name of the topology.
    pub open spec fn as_text(self) -> Seq<char> {
        match self {
            Topology::Internal => "Internal"@,
            Topology::Clone => "Clone"@,
            Topology::Extend => "Extend"@,
            Topology::External => "External"@,
            Topology::Unknown(id) => crate::types::unknown_number(id),
        }
    }

    /// The name of the registry value that holds the configuration of the
    /// topology; an unknown topology has none.
    pub open spec fn registry_value(self) -> Option<Seq<char>> {
        match self {
            Topology::Internal => Some("Internal"@),
            Topology::Clone => Some("Clone"@),
            Topology::Extend => Some("eXtend"@),
            Topology::External => Some("External"@),
            Topology::Unknown(_) => None,
        }
    }

    /// The topology with a number in the topology database.
    pub fn from_id(id: i32) -> (topology: Topology)
        ensures
            topology == Topology::of_id(id),
    {
        if id == TOPOLOGY_ID_INTERNAL {
            Topology::Internal
        } else if id == TOPOLOGY_ID_CLONE {
            Topology::Clone
        } else if id == TOPOLOGY_ID_EXTEND {
            Topology::Extend
        } else if id == TOPOLOGY_ID_EXTERNAL {
            Topology::External
        } else {
            Topology::Unknown(id)
        }
    }

    /// Writes the name of the topology.
    pub fn text(&self) -> (text: String)
        ensures
            text@ == self.as_text(),
    {
        match self {
            Topology::Internal => "Internal".to_owned(),
            Topology::Clone => "Clone".to_owned(),
            Topology::Extend => "Extend".to_owned(),
            Topology::External => "External".to_owned(),
            Topology::Unknown(id) => unknown_number_text(*id),
        }
    }

    /// Reads the name of a known topology.
    pub fn parse(text: &str) -> (topology: Option<Topology>)
        ensures
            match topology {
                Some(topology) => topology !is Unknown && text@ == topology.as_text(),
                None => forall|topology: Topology|
                    topology !is Unknown ==> text@ != #[trigger] topology.as_text(),
            },
    {
        if same_text(text, "Internal") {
            Some(Topology::Internal)
        } else if same_text(text, "Clone") {
            Some(Topology::Clone)
        } else if same_text(text, "Extend") {
            Some(Topology::Extend)
        } else if same_text(text, "External") {
            Some(Topology::External)
        } else {
            None
        }
    }

    /// The name of the registry value that holds the configuration of the topology.
    pub fn as_registry_value(&self) -> (name: Option<&'static str>)
        ensures
            match name {
                Some(name) => self.registry_value() == Some(name@),
                None => self.registry_value() is None,
            },
    {
        match self {
            Topology::Internal => Some("Internal"),
            Topology::Clone => Some("Clone"),
            Topology::Extend => Some("eXtend"),
            Topology::External => Some("External"),
            Topology::Unknown(_) => None,
        }
    }
}

/// A question for the current topology: how much room the configuration needs,
/// with these flags, is to be asked first.
#[derive(Clone, Copy, Debug)]
pub struct TopologyQuery {
    pub flags: u32,
}

/// Next, the configuration and its topology are to be asked for, with this much
/// room.
#[derive(Clone, Copy, Debug)]
pub struct SizedTopologyQuery {
    pub flags: u32,
    pub num_paths: u32,
    pub num_modes: u32,
}

/// Starts the question for the current topology in the topology database.
pub fn query_topology() -> (query: TopologyQuery)
    ensures
        query.flags == QDC_DATABASE_CURRENT,
{
    TopologyQuery { flags: QDC_DATABASE_CURRENT }
}

impl TopologyQuery {
    /// Takes the answer on the room that is needed.
    pub fn sized(self, reply: Result<(u32, u32), String>) -> (next: Result<
        SizedTopologyQuery,
        DisplayError,
    >)
        ensures
            match reply {
                Ok(counts) => next == Ok::<SizedTopologyQuery, DisplayError>(
                    SizedTopologyQuery {
                        flags: self.flags,
                        num_paths: counts.0,
                        num_modes: counts.1,
                    },
                ),
                Err(said) => next is Err && next->Err_0@ == crate::error::ErrorModel::WinAPI(
                    "GetDisplayConfigBufferSizes failed: "@ + said@,
                ),
            },
    {
        match buffer_sizes(reply) {
            Ok(counts) => Ok(
                SizedTopologyQuery {
                    flags: self.flags,
                    num_paths: counts.0,
                    num_modes: counts.1,
                },
            ),
            Err(error) => Err(error),
        }
    }
}

impl SizedTopologyQuery {
    /// Takes the number of the topology.
    pub fn queried(self, reply: Result<i32, String>) -> (topology: Result<Topology, DisplayError>)
        ensures
            match reply {
                Ok(id) => topology == Ok::<Topology, DisplayError>(Topology::of_id(id)),
                Err(said) => topology is Err && topology->Err_0@
                    == crate::error::ErrorModel::WinAPI("QueryDisplayConfig failed: "@ + said@),
            },
    {
        match queried_config(reply) {
            Ok(id) => Ok(Topology::from_id(id)),
            Err(error) => Err(error),
        }
    }
}

/// The topologies that the system may be able to switch to, with their flags, in
/// the order in which they are tried.
pub open spec fn candidates() -> Seq<(u32, Topology)> {
    seq![
        (SDC_TOPOLOGY_INTERNAL, Topology::Internal),
        (SDC_TOPOLOGY_CLONE, Topology::Clone),
        (SDC_TOPOLOGY_EXTEND, Topology::Extend),
        (SDC_TOPOLOGY_EXTERNAL, Topology::External),
    ]
}

/// The candidates among the first `n` that the system accepted, each with the
/// mark whether it is the current topology.
pub open spec fn accepted(current: Topology, codes: Seq<i32>, n: int) -> Seq<(Topology, bool)>
    decreases n,
{
    if n <= 0 {
        Seq::empty()
    } else {
        let topology = candidates()[n - 1].1;
        if codes[n - 1] == 0 {
            accepted(current, codes, n - 1).push((topology, topology == current))
        } else {
            accepted(current, codes, n - 1)
        }
    }
}

/// The flags and topologies to try.
fn candidate_list() -> (list: Vec<(u32, Topology)>)
    ensures
        list@ == candidates(),
{
    let mut list: Vec<(u32, Topology)> = Vec::new();
    list.push((SDC_TOPOLOGY_INTERNAL, Topology::Internal));
    list.push((SDC_TOPOLOGY_CLONE, Topology::Clone));
    list.push((SDC_TOPOLOGY_EXTEND, Topology::Extend));
    list.push((SDC_TOPOLOGY_EXTERNAL, Topology::External));
    assert(list@ =~= candidates());
    list
}

/// The flags with which the system is to be asked, without changing anything,
/// which topologies it can switch to.
pub fn topology_probes() -> (probes: Vec<u32>)
    ensures
        probes@.len() == candidates().len(),
        forall|i: int|
            0 <= i < probes@.len() ==> #[trigger] probes@[i] == candidates()[i].0 | SDC_VALIDATE,
        probes@ == seq![0x41u32, 0x42u32, 0x44u32, 0x48u32],
{
    let list = candidate_list();
    let mut probes: Vec<u32> = Vec::new();
    let mut i: usize = 0;
    while i < list.len()
        invariant
            list@ == candidates(),
            i <= list.len(),
            probes@.len() == i,
            forall|k: int| 0 <= k < i ==> #[trigger] probes@[k] == candidates()[k].0 | SDC_VALIDATE,
        decreases list.len() - i,
    {
        probes.push(list[i].0 | SDC_VALIDATE);
        i = i + 1;
    }
    proof {
        crate::config::law_flags();
        assert(probes@[0] == candidates()[0].0 | SDC_VALIDATE);
        assert(probes@[1] == candidates()[1].0 | SDC_VALIDATE);
        assert(probes@[2] == candidates()[2].0 | SDC_VALIDATE);
        assert(probes@[3] == candidates()[3].0 | SDC_VALIDATE);
        assert(probes@ =~= seq![0x41u32, 0x42u32, 0x44u32, 0x48u32]);
    }
    probes
}

/// The topologies that the system can switch to for the connected displays, each
/// with the mark whether it is the current one. `codes` are the answers to the
/// probes; zero is yes.
pub fn query_stored_topologies(current: Topology, codes: &Vec<i32>) -> (stored: Vec<
    (Topology, bool),
>)
    requires
        codes@.len() == candidates().len(),
    ensures
        stored@ == accepted(current, codes@, codes@.len() as int),
        stored@ == accepted_if(codes@[0], Topology::Internal, current) + accepted_if(
            codes@[1],
            Topology::Clone,
            current,
        ) + accepted_if(codes@[2], Topology::Extend, current) + accepted_if(
            codes@[3],
            Topology::External,
            current,
        ),
{
    let list = candidate_list();
    let mut stored: Vec<(Topology, bool)> = Vec::new();
    let mut i: usize = 0;
    while i < list.len()
        invariant
            list@ == candidates(),
            codes@.len() == list@.len(),
            i <= list.len(),
            stored@ == accepted(current, codes@, i as int),
        decreases list.len() - i,
    {
        if codes[i] == 0 {
            let topology: Topology = list[i].1;
            stored.push((topology, topology == current));
        }
        i = i + 1;
    }
    proof {
        law_accepted_in_order(current, codes@);
    }
    stored
}

/// Known topologies have different names, so that a name is read as the topology
/// that it was written for.
pub proof fn law_topology_names_differ(a: Topology, b: Topology)
    requires
        a !is Unknown,
        b !is Unknown,
        a.as_text() == b.as_text(),
    ensures
        a == b,
{
    reveal_strlit("Internal");
    reveal_strlit("Clone");
    reveal_strlit("Extend");
    reveal_strlit("External");
    assert("Internal"@.len() == 8 && "Internal"@[0] == 'I');
    assert("Clone"@.len() == 5);
    assert("Extend"@.len() == 6);
    assert("External"@.len() == 8 && "External"@[0] == 'E');
}

/// A topology is listed if and only if the system accepted it, and it is marked
/// if and only if it is the current one.
pub proof fn law_stored_topologies(current: Topology, codes: Seq<i32>, topology: Topology, mark: bool)
    requires
        codes.len() == candidates().len(),
    ensures
        accepted(current, codes, codes.len() as int).contains((topology, mark)) <==> {
            &&& mark == (topology == current)
            &&& exists|i: int|
                0 <= i < codes.len() && codes[i] == 0 && (#[trigger] candidates()[i]).1 == topology
        },
{
    lemma_accepted(current, codes, topology, mark, codes.len() as int);
}

/// The law for the first `n` candidates.
proof fn lemma_accepted(
    current: Topology,
    codes: Seq<i32>,
    topology: Topology,
    mark: bool,
    n: int,
)
    requires
        0 <= n <= codes.len(),
    ensures
        accepted(current, codes, n).contains((topology, mark)) <==> {
            &&& mark == (topology == current)
            &&& exists|i: int|
                0 <= i < n && codes[i] == 0 && (#[trigger] candidates()[i]).1 == topology
        },
    decreases n,
{
    if n > 0 {
        lemma_accepted(current, codes, topology, mark, n - 1);
        let list = accepted(current, codes, n);
        let shorter = accepted(current, codes, n - 1);
        let last = candidates()[n - 1].1;
        if codes[n - 1] == 0 {
            assert(list[list.len() - 1] == (last, last == current));
            if shorter.contains((topology, mark)) {
                let k = choose|k: int| 0 <= k < shorter.len() && shorter[k] == (topology, mark);
                assert(list[k] == (topology, mark));
            }
            if list.contains((topology, mark)) && !shorter.contains((topology, mark)) {
                let k = choose|k: int| 0 <= k < list.len() && list[k] == (topology, mark);
                if k < shorter.len() {
                    assert(shorter[k] == (topology, mark));
                }
            }
        }
    }
}

/// A topology with the mark whether it is the current one, where the code is zero;
/// nothing otherwise.
pub open spec fn accepted_if(code: i32, topology: Topology, current: Topology) -> Seq<
    (Topology, bool),
> {
    if code == 0 {
        seq![(topology, topology == current)]
    } else {
        Seq::empty()
    }
}

/// The first code decides on the internal topology, the second on clone, the third
/// on extend and the last on the external one, and they are listed in this order.
pub proof fn law_accepted_in_order(current: Topology, codes: Seq<i32>)
    requires
        codes.len() == 4,
    ensures
        accepted(current, codes, 4) == accepted_if(codes[0], Topology::Internal, current)
            + accepted_if(codes[1], Topology::Clone, current) + accepted_if(
            codes[2],
            Topology::Extend,
            current,
        ) + accepted_if(codes[3], Topology::External, current),
{
    reveal_with_fuel(accepted, 5);
    assert(candidates()[0].1 == Topology::Internal);
    assert(candidates()[1].1 == Topology::Clone);
    assert(candidates()[2].1 == Topology::Extend);
    assert(candidates()[3].1 == Topology::External);
    assert(accepted(current, codes, 4) =~= accepted_if(codes[0], Topology::Internal, current)
        + accepted_if(codes[1], Topology::Clone, current) + accepted_if(
        codes[2],
        Topology::Extend,
        current,
    ) + accepted_if(codes[3], Topology::External, current));
}

/// The topology with a number is known for one, two, four and eight, and keeps any
/// other number. No two numbers give the same topology.
pub proof fn law_topology_ids(id: i32, other: i32)
    ensures
        Topology::of_id(id) is Internal <==> id == 1,
        Topology::of_id(id) is Clone <==> id == 2,
        Topology::of_id(id) is Extend <==> id == 4,
        Topology::of_id(id) is External <==> id == 8,
        Topology::of_id(id) matches Topology::Unknown(n) ==> n == id,
        Topology::of_id(id) == Topology::of_id(other) ==> id == other,
{
}

/// The name of a topology, and the registry value with its configuration: they are
/// the same text but for the value of the extend topology, and an unknown topology
/// has no value.
pub proof fn law_topology_texts(topology: Topology)
    ensures
        match topology {
            Topology::Internal => topology.as_text() == "Internal"@,
            Topology::Clone => topology.as_text() == "Clone"@,
            Topology::Extend => topology.as_text() == "Extend"@,
            Topology::External => topology.as_text() == "External"@,
            Topology::Unknown(id) => topology.as_text() == "Unknown("@
                + crate::text::signed_decimal(id as int) + ")"@,
        },
        topology.registry_value() == match topology {
            Topology::Extend => Some("eXtend"@),
            Topology::Unknown(_) => None,
            _ => Some(topology.as_text()),
        },
{
}

} // verus!
