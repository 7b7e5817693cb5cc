//! Power Topology, cluster `0x009C`: which endpoints a meter measures.
//!
//! The endpoints that count now are always among those that can.

use vstd::prelude::*;

use crate::clusters::dispatch::Cluster;
use crate::conformance;
use crate::conformance::{Conformance, Conforming, Definition, DefinitionModel, Optional};
use crate::error::ErrorCode;
use crate::im;
use crate::im::{
    AttributeId, ClusterHandler, ClusterId, EndpointId, InteractionContext, InvokeAnswer, Lifecycle, ReadAnswer, Reply, Resolved,
    ResolvedCommand, Status, StatusIb, WriteOp,
};
use crate::tlv;
use crate::tlv::Tag;

verus! {

/// The cluster.
pub const ID: ClusterId = 0x009C;

/// Its revision.
pub const REVISION: u16 = 1;

/// `NODE`: the whole node.
pub const NODE_TOPOLOGY: u32 = 0x01;

/// `TREE`: the endpoint and what is below it.
pub const TREE_TOPOLOGY: u32 = 0x02;

/// `SET`: a set of endpoints.
pub const SET_TOPOLOGY: u32 = 0x04;

/// `DYPF`: a set that changes.
pub const DYNAMIC_POWER_FLOW: u32 = 0x08;

/// `AvailableEndpoints`.
pub const AVAILABLE_ENDPOINTS: AttributeId = 0x0000;

/// `ActiveEndpoints`.
pub const ACTIVE_ENDPOINTS: AttributeId = 0x0001;

/// The cluster's definition.
pub open spec fn defined() -> DefinitionModel {
    DefinitionModel {
        id: ID,
        revision: REVISION,
        features: 0x0F,
        attributes: seq![
            conformance::reads(AVAILABLE_ENDPOINTS, Conformance::With(SET_TOPOLOGY)),
            conformance::reads(ACTIVE_ENDPOINTS, Conformance::With(DYNAMIC_POWER_FLOW)),
        ],
        commands: Seq::empty(),
        generated: Seq::empty(),
        events: Seq::empty(),
    }
}

/// The cluster's definition.
pub fn definition() -> (d: Definition)
    ensures
        d@ == defined(),
{
    let d: Definition = Definition {
        id: ID,
        revision: REVISION,
        features: 0x0F,
        attributes: vec![
            conformance::readable(AVAILABLE_ENDPOINTS, Conformance::With(SET_TOPOLOGY)),
            conformance::readable(ACTIVE_ENDPOINTS, Conformance::With(DYNAMIC_POWER_FLOW)),
        ],
        commands: Vec::new(),
        generated: Vec::new(),
        events: Vec::new(),
    };
    proof {
        assert(d@.attributes =~= defined().attributes);
    }
    d
}

/// Whether every endpoint of one list is on another.
pub open spec fn among(active: Seq<EndpointId>, available: Seq<EndpointId>) -> bool {
    forall|i: int| 0 <= i < active.len() ==> available.contains(#[trigger] active[i])
}

fn lists(available: &[EndpointId], id: EndpointId) -> (r: bool)
    ensures
        r == available@.contains(id),
{
    let mut i: usize = 0;
    while i < available.len()
        invariant
            i <= available@.len(),
            forall|k: int| 0 <= k < i ==> available@[k] != id,
        decreases available.len() - i,
    {
        if available[i] == id {
            return true;
        }
        i = i + 1;
    }
    false
}

fn all_listed(active: &[EndpointId], available: &[EndpointId]) -> (r: bool)
    ensures
        r == among(active@, available@),
{
    let mut i: usize = 0;
    while i < active.len()
        invariant
            i <= active@.len(),
            forall|k: int| 0 <= k < i ==> available@.contains(#[trigger] active@[k]),
        decreases active.len() - i,
    {
        if !lists(available, active[i]) {
            return false;
        }
        i = i + 1;
    }
    true
}

/// Power Topology over a set of endpoints.
pub struct PowerTopology<'a> {
    available: &'a [EndpointId],
    active: &'a [EndpointId],
}

/// What a topology holds.
pub struct TopologyModel {
    /// The endpoints that can count.
    pub available: Seq<EndpointId>,
    /// Those that count now.
    pub active: Seq<EndpointId>,
}

impl<'a> View for PowerTopology<'a> {
    type V = TopologyModel;

    closed spec fn view(&self) -> TopologyModel {
        TopologyModel { available: self.available@, active: self.active@ }
    }
}

impl<'a> PowerTopology<'a> {
    #[verifier::type_invariant]
    spec fn valid(self) -> bool {
        among(self.active@, self.available@)
    }

    /// A set of endpoints, all of which count.
    pub fn new(available: &'a [EndpointId]) -> (c: Self)
        ensures
            c@ == (TopologyModel { available: available@, active: available@ }),
    {
        PowerTopology { available, active: available }
    }

    /// The description for features and for what the product chooses.
    pub fn conforming(features: u32, optional: &Optional) -> (r: Result<Conforming, ErrorCode>)
        ensures
            conformance::outcome(r) == conformance::conform(defined(), features, optional@),
    {
        Conforming::new(&definition(), features, optional)
    }

    /// Says which endpoints count now; one that cannot is refused, and nothing changes.
    pub fn set_active(&mut self, active: &'a [EndpointId]) -> (r: Result<(), Status>)
        ensures
            if among(active@, old(self)@.available) {
                r == Ok::<(), Status>(()) && final(self)@ == (TopologyModel { active: active@, ..old(self)@ })
            } else {
                r == Err::<(), Status>(Status::ConstraintError) && final(self)@ == old(self)@
            },
    {
        if !all_listed(active, self.available) {
            return Err(Status::ConstraintError);
        }
        self.active = active;
        Ok(())
    }

    /// The endpoints that count now: always some of those that can.
    pub fn active(&self) -> (active: &'a [EndpointId])
        ensures
            active@ == self@.active,
            among(active@, self@.available),
    {
        proof {
            use_type_invariant(&*self);
        }
        self.active
    }
}

/// What an attribute is answered with.
pub open spec fn attribute_answer(m: TopologyModel, id: AttributeId, tag: Tag) -> ReadAnswer {
    if id == AVAILABLE_ENDPOINTS {
        Ok(tlv::numbers_bytes(tag, m.available))
    } else if id == ACTIVE_ENDPOINTS {
        Ok(tlv::numbers_bytes(tag, m.active))
    } else {
        Err(Status::UnsupportedAttribute)
    }
}

fn encode_endpoints(tag: Tag, ids: &[EndpointId]) -> (a: Result<Vec<u8>, Status>)
    ensures
        im::read_answer(a) == Ok::<Seq<u8>, Status>(tlv::numbers_bytes(tag, ids@)),
{
    let mut out: Vec<u8> = Vec::new();
    tlv::put_numbers(&mut out, tag, ids);
    proof {
        assert(out@ =~= tlv::numbers_bytes(tag, ids@));
    }
    Ok(out)
}

impl<'a> Cluster for PowerTopology<'a> {
    const ID: ClusterId = ID;
}

impl<'a> ClusterHandler for PowerTopology<'a> {
    open spec fn answers(&self, resolved: Resolved, ctx: InteractionContext, tag: Tag, a: ReadAnswer) -> bool {
        a == attribute_answer(self@, resolved.attribute, tag)
    }

    open spec fn writes(
        before: &Self,
        after: &Self,
        resolved: Resolved,
        data: Seq<u8>,
        op: WriteOp,
        ctx: InteractionContext,
        r: Result<(), Status>,
    ) -> bool {
        *after == *before && r == Err::<(), Status>(Status::UnsupportedWrite)
    }

    open spec fn invokes(
        before: &Self,
        after: &Self,
        resolved: ResolvedCommand,
        fields: Option<Seq<u8>>,
        ctx: InteractionContext,
        tag: Tag,
        a: InvokeAnswer,
    ) -> bool {
        *after == *before && a == im::refused(Status::UnsupportedCommand)
    }

    open spec fn outlives(before: &Self, after: &Self, event: Lifecycle) -> bool {
        *after == *before
    }

    open spec fn unfit(&self, resolved: ResolvedCommand) -> Status {
        Status::Failure
    }

    fn answer(&self, resolved: &Resolved, ctx: &InteractionContext, tag: Tag) -> (a: Result<Vec<u8>, Status>) {
        match resolved.attribute {
            AVAILABLE_ENDPOINTS => encode_endpoints(tag, self.available),
            ACTIVE_ENDPOINTS => encode_endpoints(tag, self.active),
            _ => Err(Status::UnsupportedAttribute),
        }
    }

    fn write(&mut self, resolved: &Resolved, data: &[u8], op: WriteOp, ctx: &InteractionContext) -> (r: Result<(), Status>) {
        Err(Status::UnsupportedWrite)
    }

    fn perform(
        &mut self,
        resolved: &ResolvedCommand,
        fields: Option<&[u8]>,
        ctx: &InteractionContext,
        tag: Tag,
    ) -> (a: Result<Reply, StatusIb>) {
        im::refuse(Status::UnsupportedCommand)
    }

    fn on_lifecycle(&mut self, event: Lifecycle) {
    }

    fn unfit_status(&self, resolved: &ResolvedCommand) -> (s: Status) {
        Status::Failure
    }
}

/// What a read shows: every endpoint that can count, and every one that counts now, in order.
pub proof fn law_a_topology_is_read_as_it_is<'a>(
    c: PowerTopology<'a>,
    resolved: Resolved,
    ctx: InteractionContext,
    tag: Tag,
    a: ReadAnswer,
)
    requires
        c.answers(resolved, ctx, tag, a),
    ensures
        resolved.attribute == 0x0000 ==> a == Ok::<Seq<u8>, Status>(
            tlv::array_bytes(tag, tlv::concat(c@.available, |e: EndpointId| tlv::unsigned_bytes(Tag::Anonymous, e as u64))),
        ),
        resolved.attribute == 0x0001 ==> a == Ok::<Seq<u8>, Status>(
            tlv::array_bytes(tag, tlv::concat(c@.active, |e: EndpointId| tlv::unsigned_bytes(Tag::Anonymous, e as u64))),
        ),
        resolved.attribute > 0x0001 ==> a == Err::<Seq<u8>, Status>(Status::UnsupportedAttribute),
{
    assert(tlv::item_bytes::<EndpointId>() =~= |e: EndpointId| tlv::unsigned_bytes(Tag::Anonymous, e as u64));
}

/// Endpoints are some of others exactly where each of them is one.
pub proof fn law_only_available_endpoints_count(active: Seq<EndpointId>, available: Seq<EndpointId>, e: EndpointId)
    ensures
        among(active, available) && active.contains(e) ==> available.contains(e),
        !among(active, available) ==> exists|x: EndpointId| #[trigger] active.contains(x) && !available.contains(x),
{
    if !among(active, available) {
        let i = choose|i: int| 0 <= i < active.len() && !available.contains(#[trigger] active[i]);
        assert(active.contains(active[i]));
    }
}

/// How the cluster describes itself follows from the features and from what the product chooses: each attribute, command and event
/// is there exactly where they say so, with who may read, write or invoke it, and nothing else is.
pub proof fn law_the_cluster_describes_itself(features: u32, o: conformance::OptionalModel, c: crate::dm::ClusterModel)
    requires
        conformance::conform(defined(), features, o) == Ok::<crate::dm::ClusterModel, ErrorCode>(c),
    ensures
        c.id == 0x009C,
        c.revision == 1,
        c.feature_map == features,
        features & !0x0Fu32 == 0,
        c.attributes.contains(conformance::shown_attribute(0x0000, None)) == (features & 0x04 != 0),
        c.attributes.contains(conformance::shown_attribute(0x0001, None)) == (features & 0x08 != 0),
        c.attributes.len() <= 2,
        c.accepted_commands.len() <= 0,
        c.events.len() <= 0,
{
    let d = defined();
    assert(conformance::told_apart(d.attributes));
    assert(conformance::told_apart(d.commands));
    assert(conformance::told_apart(d.events));
    conformance::lemma_described(d.attributes, features, o.attributes, conformance::shown_attribute(0x0000, None), 0);
    conformance::lemma_described(d.attributes, features, o.attributes, conformance::shown_attribute(0x0001, None), 1);
    conformance::lemma_at_most(d.attributes, features, o.attributes, d.attributes.len() as int);
    conformance::lemma_at_most(d.commands, features, o.commands, d.commands.len() as int);
    conformance::lemma_at_most(d.events, features, o.events, d.events.len() as int);
}

} // verus!
