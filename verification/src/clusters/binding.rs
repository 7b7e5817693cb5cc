//! Binding, cluster `0x001E`: whom an endpoint talks to as a client.
//!
//! A binding is to one endpoint of one node, or to a group, and never to both. Each fabric has its
//! own share of the table and sees its own bindings.

use vstd::prelude::*;

use crate::bounded;
use crate::bounded::List;
use crate::clusters::dispatch::Cluster;
use crate::dm;
use crate::dm::{Access, AccessQualities, AttributeDescriptor, AttributeQualities, ClusterDescriptor, ClusterModel, Privilege};
use crate::im;
use crate::im::{
    AttributeId, ClusterHandler, ClusterId, EndpointId, InteractionContext, InvokeAnswer, Lifecycle, ReadAnswer, Reply, Resolved,
    ResolvedCommand, Status, StatusIb, WriteOp,
};
use crate::msg::{FabricIndex, GroupId, NodeId};
use crate::tlv;
use crate::tlv::{ContainerKind, Element, Items, Tag, Value};

verus! {

/// The cluster.
pub const ID: ClusterId = 0x001E;

/// Its revision.
pub const REVISION: u16 = 1;

/// `Binding`.
pub const BINDING: AttributeId = 0x0000;

/// The field that says which fabric a binding belongs to.
pub const FABRIC_INDEX_FIELD: u8 = 254;

/// One binding.
#[derive(Debug, Clone, Copy, PartialEq, Eq, Structural)]
pub struct Target {
    /// The fabric.
    pub fabric_index: FabricIndex,
    /// A node.
    pub node: Option<NodeId>,
    /// A group.
    pub group: Option<GroupId>,
    /// An endpoint of the node.
    pub endpoint: Option<EndpointId>,
    /// A cluster there.
    pub cluster: Option<ClusterId>,
}

impl Default for Target {
    fn default() -> (t: Self)
        ensures
            t == nothing(FabricIndex(0)),
    {
        Target { fabric_index: FabricIndex(0), node: None, group: None, endpoint: None, cluster: None }
    }
}

/// A binding that names nothing yet.
pub open spec fn nothing(fabric: FabricIndex) -> Target {
    Target { fabric_index: fabric, node: None, group: None, endpoint: None, cluster: None }
}

impl Target {
    /// Whether it can be a binding: a node or a group is named, an endpoint only with a node and
    /// not with a group, and a cluster and an endpoint that can exist.
    pub open spec fn valid(self) -> bool {
        &&& !(self.group is Some && self.endpoint is Some)
        &&& self.endpoint is Some ==> self.node is Some
        &&& self.cluster matches Some(id) ==> dm::cluster_valid(id)
        &&& self.endpoint != Some(0xFFFFu16)
        &&& self.node is Some || self.group is Some
    }

    /// A binding to an endpoint of a node.
    pub fn unicast(fabric_index: FabricIndex, node: NodeId, endpoint: EndpointId) -> (t: Self)
        ensures
            t == (Target { fabric_index, node: Some(node), group: None, endpoint: Some(endpoint), cluster: None }),
    {
        Target { fabric_index, node: Some(node), group: None, endpoint: Some(endpoint), cluster: None }
    }

    /// A binding to a group.
    pub fn groupcast(fabric_index: FabricIndex, group: GroupId) -> (t: Self)
        ensures
            t == (Target { fabric_index, node: None, group: Some(group), endpoint: None, cluster: None }),
    {
        Target { fabric_index, node: None, group: Some(group), endpoint: None, cluster: None }
    }

    /// The same, to one cluster there.
    pub fn with_cluster(self, cluster: ClusterId) -> (t: Self)
        ensures
            t == (Target { cluster: Some(cluster), ..self }),
    {
        Target { cluster: Some(cluster), ..self }
    }

    /// Whether it can be a binding.
    pub fn is_valid(&self) -> (r: bool)
        ensures
            r == self.valid(),
    {
        if self.group.is_some() && self.endpoint.is_some() {
            return false;
        }
        if self.endpoint.is_some() && self.node.is_none() {
            return false;
        }
        if let Some(cluster) = self.cluster {
            if !dm::cluster_is_valid(cluster) {
                return false;
            }
        }
        if let Some(endpoint) = self.endpoint {
            if endpoint == 0xFFFF {
                return false;
            }
        }
        self.node.is_some() || self.group.is_some()
    }

    /// Whether it is to a group.
    pub fn is_groupcast(&self) -> (r: bool)
        ensures
            r == (self.group is Some),
    {
        self.group.is_some()
    }

    fn encode(&self, out: &mut Vec<u8>)
        ensures
            final(out)@ == old(out)@ + target_bytes(*self),
    {
        let mut body: Vec<u8> = Vec::new();
        tlv::put_optional(
            &mut body,
            Tag::Context(1),
            match self.node {
                Some(node) => Some(node.0),
                None => None,
            },
        );
        tlv::put_optional(
            &mut body,
            Tag::Context(2),
            match self.group {
                Some(group) => Some(group.0 as u64),
                None => None,
            },
        );
        tlv::put_optional(
            &mut body,
            Tag::Context(3),
            match self.endpoint {
                Some(endpoint) => Some(endpoint as u64),
                None => None,
            },
        );
        tlv::put_optional(
            &mut body,
            Tag::Context(4),
            match self.cluster {
                Some(cluster) => Some(cluster as u64),
                None => None,
            },
        );
        tlv::put_unsigned(&mut body, Tag::Context(FABRIC_INDEX_FIELD), self.fabric_index.0 as u64);
        proof {
            assert(body@ =~= tlv::optional_bytes(Tag::Context(1), node_of(self.node)) + tlv::optional_bytes(
                Tag::Context(2),
                group_of(self.group),
            ) + tlv::optional_bytes(Tag::Context(3), endpoint_of(self.endpoint)) + tlv::optional_bytes(
                Tag::Context(4),
                cluster_of(self.cluster),
            ) + tlv::unsigned_bytes(Tag::Context(FABRIC_INDEX_FIELD), self.fabric_index.0 as u64));
        }
        tlv::put_structure(out, Tag::Anonymous, &body);
    }
}

/// A node's number.
pub open spec fn node_of(v: Option<NodeId>) -> Option<u64> {
    match v {
        Some(v) => Some(v.0),
        None => None,
    }
}

/// A group's number.
pub open spec fn group_of(v: Option<GroupId>) -> Option<u64> {
    match v {
        Some(v) => Some(v.0 as u64),
        None => None,
    }
}

/// An endpoint's number.
pub open spec fn endpoint_of(v: Option<EndpointId>) -> Option<u64> {
    match v {
        Some(v) => Some(v as u64),
        None => None,
    }
}

/// A cluster's number.
pub open spec fn cluster_of(v: Option<ClusterId>) -> Option<u64> {
    match v {
        Some(v) => Some(v as u64),
        None => None,
    }
}

/// A binding as an item of a list.
pub open spec fn target_bytes(t: Target) -> Seq<u8> {
    tlv::structure_bytes(
        Tag::Anonymous,
        tlv::optional_bytes(Tag::Context(1), node_of(t.node)) + tlv::optional_bytes(
            Tag::Context(2),
            group_of(t.group),
        ) + tlv::optional_bytes(Tag::Context(3), endpoint_of(t.endpoint)) + tlv::optional_bytes(
            Tag::Context(4),
            cluster_of(t.cluster),
        ) + tlv::unsigned_bytes(Tag::Context(FABRIC_INDEX_FIELD), t.fabric_index.0 as u64),
    )
}

/// A binding with what one more element says. The fabric that a client names is ignored.
pub open spec fn target_with(t: Target, e: Element) -> Result<Target, Status> {
    if e.value is Null || e.context == Some(FABRIC_INDEX_FIELD) {
        Ok(t)
    } else {
        match e.value {
            Value::Unsigned(v) => if e.context == Some(1u8) {
                Ok(Target { node: Some(NodeId(v)), ..t })
            } else if e.context == Some(2u8) {
                if 1 <= v <= u16::MAX {
                    Ok(Target { group: Some(GroupId(v as u16)), ..t })
                } else {
                    Err(Status::ConstraintError)
                }
            } else if e.context == Some(3u8) {
                if v <= u16::MAX {
                    Ok(Target { endpoint: Some(v as u16), ..t })
                } else {
                    Err(Status::ConstraintError)
                }
            } else if e.context == Some(4u8) {
                if v <= u32::MAX {
                    Ok(Target { cluster: Some(v as u32), ..t })
                } else {
                    Err(Status::ConstraintError)
                }
            } else {
                Ok(t)
            },
            _ => Err(Status::ConstraintError),
        }
    }
}

/// What the first `n` elements of a binding say.
pub open spec fn target_after(items: Seq<Element>, n: int, fabric: FabricIndex) -> Result<Target, Status>
    decreases n,
{
    if n <= 0 {
        Ok(nothing(fabric))
    } else {
        match target_after(items, n - 1, fabric) {
            Err(status) => Err(status),
            Ok(t) => target_with(t, items[n - 1]),
        }
    }
}

proof fn lemma_target_err(items: Seq<Element>, i: int, n: int, fabric: FabricIndex)
    requires
        i <= n,
        target_after(items, i, fabric) is Err,
    ensures
        target_after(items, n, fabric) == target_after(items, i, fabric),
    decreases n - i,
{
    if i < n {
        lemma_target_err(items, i, n - 1, fabric);
    }
}

/// The binding whose content starts at `pos`, or what is wrong with it.
pub open spec fn target_at(b: Seq<u8>, pos: int, fabric: FabricIndex) -> Result<Target, Status> {
    let s = tlv::scan(b, pos);
    match target_after(s.items, s.items.len() as int, fabric) {
        Err(status) => Err(status),
        Ok(t) => if !s.complete {
            Err(Status::InvalidAction)
        } else if !t.valid() {
            Err(Status::ConstraintError)
        } else {
            Ok(t)
        },
    }
}

fn put_in(t: Target, e: &Element) -> (r: Result<Target, Status>)
    ensures
        r == target_with(t, *e),
{
    if let Some(FABRIC_INDEX_FIELD) = e.context {
        return Ok(t);
    }
    match e.value {
        Value::Null => Ok(t),
        Value::Unsigned(v) => match e.context {
            Some(1) => Ok(Target { node: Some(NodeId(v)), ..t }),
            Some(2) => if 1 <= v && v <= 0xFFFF {
                Ok(Target { group: Some(GroupId(v as u16)), ..t })
            } else {
                Err(Status::ConstraintError)
            },
            Some(3) => if v <= 0xFFFF {
                Ok(Target { endpoint: Some(v as u16), ..t })
            } else {
                Err(Status::ConstraintError)
            },
            Some(4) => if v <= 0xFFFF_FFFF {
                Ok(Target { cluster: Some(v as u32), ..t })
            } else {
                Err(Status::ConstraintError)
            },
            _ => Ok(t),
        },
        _ => Err(Status::ConstraintError),
    }
}

fn decode_target(data: &[u8], start: usize, fabric_index: FabricIndex) -> (r: Result<Target, Status>)
    requires
        start <= data@.len(),
    ensures
        r == target_at(data@, start as int, fabric_index),
{
    let read: Items = tlv::read_items(data, start);
    let mut t: Target = Target { fabric_index, ..Target::default() };
    let mut i: usize = 0;
    while i < read.items.len()
        invariant
            i <= read.items@.len(),
            read.items@ == tlv::scan(data@, start as int).items,
            target_after(read.items@, i as int, fabric_index) == Ok::<Target, Status>(t),
        decreases read.items.len() - i,
    {
        match put_in(t, &read.items[i]) {
            Err(status) => {
                proof {
                    lemma_target_err(read.items@, i + 1, read.items@.len() as int, fabric_index);
                }
                return Err(status);
            },
            Ok(next) => {
                t = next;
            },
        }
        i = i + 1;
    }
    if !read.complete {
        return Err(Status::InvalidAction);
    }
    if !t.is_valid() {
        return Err(Status::ConstraintError);
    }
    Ok(t)
}

/// The bindings that the first `n` items of a list are, at most `cap`.
pub open spec fn targets_after(b: Seq<u8>, items: Seq<Element>, n: int, fabric: FabricIndex, cap: nat) -> Result<
    Seq<Target>,
    Status,
>
    decreases n,
{
    if n <= 0 {
        Ok(Seq::empty())
    } else {
        match targets_after(b, items, n - 1, fabric, cap) {
            Err(status) => Err(status),
            Ok(before) => if !items[n - 1].is_structure() {
                Err(Status::InvalidAction)
            } else {
                match target_at(b, items[n - 1].content(), fabric) {
                    Err(status) => Err(status),
                    Ok(t) => if before.len() >= cap {
                        Err(Status::ResourceExhausted)
                    } else {
                        Ok(before.push(t))
                    },
                }
            },
        }
    }
}

proof fn lemma_targets_err(b: Seq<u8>, items: Seq<Element>, i: int, n: int, fabric: FabricIndex, cap: nat)
    requires
        i <= n,
        targets_after(b, items, i, fabric, cap) is Err,
    ensures
        targets_after(b, items, n, fabric, cap) == targets_after(b, items, i, fabric, cap),
    decreases n - i,
{
    if i < n {
        lemma_targets_err(b, items, i, n - 1, fabric, cap);
    }
}

/// The bindings of a list whose content starts at `pos`, or what is wrong with it.
pub open spec fn targets_at(b: Seq<u8>, pos: int, fabric: FabricIndex, cap: nat) -> Result<Seq<Target>, Status> {
    let s = tlv::scan(b, pos);
    match targets_after(b, s.items, s.items.len() as int, fabric, cap) {
        Err(status) => Err(status),
        Ok(targets) => if s.complete {
            Ok(targets)
        } else {
            Err(Status::InvalidAction)
        },
    }
}

fn decode_targets<const N: usize>(data: &[u8], start: usize, fabric: FabricIndex) -> (r: Result<List<Target, N>, Status>)
    requires
        start <= data@.len(),
    ensures
        match r {
            Ok(list) => targets_at(data@, start as int, fabric, N as nat) == Ok::<Seq<Target>, Status>(list@),
            Err(status) => targets_at(data@, start as int, fabric, N as nat) == Err::<Seq<Target>, Status>(status),
        },
{
    let read: Items = tlv::read_items(data, start);
    let ghost items = read.items@;
    let ghost n = items.len() as int;
    let mut list: List<Target, N> = List::new();
    let mut i: usize = 0;
    while i < read.items.len()
        invariant
            i <= read.items@.len(),
            items == read.items@,
            n == items.len(),
            items == tlv::scan(data@, start as int).items,
            forall|i: int| 0 <= i < read.items@.len() ==> tlv::inside(data@, #[trigger] read.items@[i]),
            targets_after(data@, items, i as int, fabric, N as nat) == Ok::<Seq<Target>, Status>(list@),
        decreases read.items.len() - i,
    {
        proof {
            assert(tlv::inside(data@, items[i as int]));
            if targets_after(data@, items, i + 1, fabric, N as nat) is Err {
                lemma_targets_err(data@, items, i + 1, n, fabric, N as nat);
            }
        }
        let at: usize = match read.items[i].value {
            Value::Container(ContainerKind::Structure, at) => at,
            _ => return Err(Status::InvalidAction),
        };
        match decode_target(data, at, fabric) {
            Err(status) => return Err(status),
            Ok(t) => {
                if !list.push(t) {
                    return Err(Status::ResourceExhausted);
                }
            },
        }
        i = i + 1;
    }
    if read.complete {
        Ok(list)
    } else {
        Err(Status::InvalidAction)
    }
}

/// How the cluster describes itself.
pub open spec fn description() -> ClusterModel {
    ClusterModel {
        id: ID,
        revision: REVISION,
        feature_map: 0,
        attributes: seq![
            AttributeDescriptor {
                id: BINDING,
                access: Access {
                    read: Some(Privilege::View),
                    write: Some(Privilege::Manage),
                    invoke: None,
                    qualities: AccessQualities { fabric_scoped: true, fabric_sensitive: false, timed: false },
                },
                qualities: dm::kept_value(),
            },
        ],
        accepted_commands: Seq::empty(),
        generated_commands: Seq::empty(),
        events: Seq::empty(),
    }
}

/// How the cluster describes itself.
pub fn cluster() -> (d: ClusterDescriptor)
    ensures
        d@ == description(),
{
    let d: ClusterDescriptor = ClusterDescriptor {
        id: ID,
        revision: REVISION,
        feature_map: 0,
        attributes: vec![
            AttributeDescriptor::read_write(BINDING).with_access(
                Access::read_write_with(Privilege::View, Privilege::Manage).with_qualities(
                    AccessQualities::fabric_scoped(),
                ),
            ).with_qualities(AttributeQualities::non_volatile()),
        ],
        accepted_commands: Vec::new(),
        generated_commands: Vec::new(),
        events: Vec::new(),
    };
    proof {
        assert(d@.attributes =~= description().attributes);
    }
    d
}

/// Bindings of a fabric.
pub open spec fn of_fabric(fabric: FabricIndex) -> spec_fn(Target) -> bool {
    |t: Target| t.fabric_index == fabric
}

/// Bindings of other fabrics.
pub open spec fn not_of_fabric(fabric: FabricIndex) -> spec_fn(Target) -> bool {
    |t: Target| t.fabric_index != fabric
}

/// What adding a binding comes to.
pub open spec fn added(targets: Seq<Target>, t: Target, per_fabric: nat, cap: nat) -> (Seq<Target>, Option<Status>) {
    if !t.valid() || t.fabric_index.0 == 0 {
        (targets, Some(Status::ConstraintError))
    } else if bounded::count(targets, of_fabric(t.fabric_index)) >= per_fabric || targets.len() >= cap {
        (targets, Some(Status::ResourceExhausted))
    } else {
        (targets.push(t), None)
    }
}

/// What giving a fabric other bindings comes to: those of other fabrics stay, and then come as many
/// of the new ones as there is room for.
pub open spec fn replaced(targets: Seq<Target>, fabric: FabricIndex, new: Seq<Target>, per_fabric: nat, cap: nat) -> (
    Seq<Target>,
    Option<Status>,
) {
    let others = targets.filter(not_of_fabric(fabric));
    if new.len() > per_fabric {
        (targets, Some(Status::ResourceExhausted))
    } else {
        (
            others + bounded::leading(new, (cap - others.len()) as nat),
            if others.len() + new.len() > cap { Some(Status::ResourceExhausted) } else { None },
        )
    }
}

/// What writing the list comes to: all of a fabric's bindings, or one more.
pub open spec fn written(targets: Seq<Target>, b: Seq<u8>, op: WriteOp, ctx: InteractionContext, per_fabric: nat, cap: nat) -> (
    Seq<Target>,
    Option<Status>,
) {
    match ctx.fabric_index {
        None => (targets, Some(Status::UnsupportedAccess)),
        Some(fabric) => match tlv::element_at(b, 0) {
            None => (targets, Some(Status::InvalidAction)),
            Some((e, _)) => match op {
                WriteOp::Replace => if !e.is_array() {
                    (targets, Some(Status::InvalidAction))
                } else {
                    match targets_at(b, e.content(), fabric, cap) {
                        Err(status) => (targets, Some(status)),
                        Ok(new) => replaced(targets, fabric, new, per_fabric, cap),
                    }
                },
                WriteOp::Append => if !e.is_structure() {
                    (targets, Some(Status::InvalidAction))
                } else {
                    match target_at(b, e.content(), fabric) {
                        Err(status) => (targets, Some(status)),
                        Ok(t) => added(targets, t, per_fabric, cap),
                    }
                },
            },
        },
    }
}

/// What went wrong, where something did.
pub open spec fn refusal(r: Result<(), Status>) -> Option<Status> {
    match r {
        Ok(_) => None,
        Err(status) => Some(status),
    }
}

/// Binding with at most `N` bindings in all.
pub struct Binding<const N: usize> {
    /// The bindings.
    pub targets: List<Target, N>,
    /// How many one fabric may have.
    pub per_fabric: usize,
}

/// The bindings among the first `n` that a read gives.
pub open spec fn visible_items(targets: Seq<Target>, ctx: InteractionContext, n: int) -> Seq<u8>
    decreases n,
{
    if n <= 0 {
        Seq::empty()
    } else {
        visible_items(targets, ctx, n - 1) + (if ctx.sees(targets[n - 1].fabric_index) {
            target_bytes(targets[n - 1])
        } else {
            Seq::empty()
        })
    }
}

impl<const N: usize> Binding<N> {
    /// A table without bindings.
    pub fn new(per_fabric: usize) -> (c: Self)
        ensures
            c.targets@ == Seq::<Target>::empty(),
            c.per_fabric == per_fabric,
    {
        Binding { targets: List::new(), per_fabric }
    }

    /// How many bindings one fabric may have.
    pub fn per_fabric(&self) -> (n: usize)
        ensures
            n == self.per_fabric,
    {
        self.per_fabric
    }

    /// The bindings.
    pub fn targets(&self) -> (targets: &[Target])
        ensures
            targets@ == self.targets@,
    {
        self.targets.as_slice()
    }

    /// How many bindings a fabric has.
    pub fn len_of_fabric(&self, fabric: FabricIndex) -> (n: usize)
        ensures
            n == bounded::count(self.targets@, of_fabric(fabric)),
    {
        self.targets.count(
            |t: &Target| -> (b: bool)
                ensures
                    b == (t.fabric_index == fabric)
                { t.fabric_index.0 == fabric.0 },
            Ghost(of_fabric(fabric)),
        )
    }

    /// Adds a binding.
    pub fn add(&mut self, target: Target) -> (r: Result<(), Status>)
        ensures
            (final(self).targets@, refusal(r)) == added(old(self).targets@, target, old(self).per_fabric as nat, N as nat),
            final(self).per_fabric == old(self).per_fabric,
    {
        if !target.is_valid() || target.fabric_index.0 == 0 {
            return Err(Status::ConstraintError);
        }
        if self.len_of_fabric(target.fabric_index) >= self.per_fabric {
            return Err(Status::ResourceExhausted);
        }
        if self.targets.push(target) {
            Ok(())
        } else {
            Err(Status::ResourceExhausted)
        }
    }

    /// Forgets the bindings of a fabric.
    pub fn remove_fabric(&mut self, fabric: FabricIndex)
        ensures
            final(self).targets@ == old(self).targets@.filter(not_of_fabric(fabric)),
            final(self).per_fabric == old(self).per_fabric,
    {
        self.targets.retain(
            |t: &Target| -> (b: bool)
                ensures
                    b == (t.fabric_index != fabric)
                { t.fabric_index.0 != fabric.0 },
            Ghost(not_of_fabric(fabric)),
        );
    }

    fn replace(&mut self, fabric: FabricIndex, new: &[Target]) -> (r: Result<(), Status>)
        ensures
            (final(self).targets@, refusal(r)) == replaced(
                old(self).targets@,
                fabric,
                new@,
                old(self).per_fabric as nat,
                N as nat,
            ),
            final(self).per_fabric == old(self).per_fabric,
    {
        if new.len() > self.per_fabric {
            return Err(Status::ResourceExhausted);
        }
        self.remove_fabric(fabric);
        let held: usize = self.targets.len();
        let ghost others = self.targets@;
        let mut i: usize = 0;
        proof {
            assert(others + new@.take(0) =~= others);
        }
        while i < new.len()
            invariant
                i <= new@.len(),
                held == others.len() <= N,
                i <= N - held,
                self.targets@ == others + new@.take(i as int),
                self.per_fabric == old(self).per_fabric,
                others == old(self).targets@.filter(not_of_fabric(fabric)),
                new@.len() <= old(self).per_fabric,
            decreases new.len() - i,
        {
            if !self.targets.push(new[i]) {
                proof {
                    assert(new@.take(i as int) =~= bounded::leading(new@, (N - others.len()) as nat));
                }
                return Err(Status::ResourceExhausted);
            }
            proof {
                assert(new@.take(i + 1) =~= new@.take(i as int).push(new@[i as int]));
                assert(self.targets@ =~= others + new@.take(i + 1));
            }
            i = i + 1;
        }
        proof {
            assert(new@.take(i as int) =~= new@);
        }
        Ok(())
    }

    fn encode_targets(&self, ctx: &InteractionContext, tag: Tag) -> (out: Vec<u8>)
        ensures
            out@ == tlv::array_bytes(tag, visible_items(self.targets@, *ctx, self.targets@.len() as int)),
    {
        let items: &[Target] = self.targets.as_slice();
        let mut body: Vec<u8> = Vec::new();
        let mut i: usize = 0;
        while i < items.len()
            invariant
                i <= items@.len(),
                items@ == self.targets@,
                body@ == visible_items(items@, *ctx, i as int),
            decreases items.len() - i,
        {
            if ctx.visible(items[i].fabric_index) {
                items[i].encode(&mut body);
            } else {
                proof {
                    assert(body@ + Seq::<u8>::empty() =~= body@);
                }
            }
            i = i + 1;
        }
        let mut out: Vec<u8> = Vec::new();
        tlv::put_array(&mut out, tag, &body);
        proof {
            assert(out@ =~= tlv::array_bytes(tag, body@));
        }
        out
    }
}

impl<const N: usize> Cluster for Binding<N> {
    const ID: ClusterId = ID;
}

impl<const N: usize> ClusterHandler for Binding<N> {
    open spec fn answers(&self, resolved: Resolved, ctx: InteractionContext, tag: Tag, a: ReadAnswer) -> bool {
        a == if resolved.attribute == BINDING {
            Ok(tlv::array_bytes(tag, visible_items(self.targets@, ctx, self.targets@.len() as int)))
        } else {
            Err::<Seq<u8>, Status>(Status::UnsupportedAttribute)
        }
    }

    open spec fn writes(
        before: &Self,
        after: &Self,
        resolved: Resolved,
        data: Seq<u8>,
        op: WriteOp,
        ctx: InteractionContext,
        r: Result<(), Status>,
    ) -> bool {
        &&& after.per_fabric == before.per_fabric
        &&& (after.targets@, refusal(r)) == if resolved.attribute != BINDING {
            (before.targets@, Some(Status::UnsupportedWrite))
        } else {
            written(before.targets@, data, op, ctx, before.per_fabric as nat, N as nat)
        }
    }

    open spec fn invokes(
        before: &Self,
        after: &Self,
        resolved: ResolvedCommand,
        fields: Option<Seq<u8>>,
        ctx: InteractionContext,
        tag: Tag,
        a: InvokeAnswer,
    ) -> bool {
        *after == *before && a == im::refused(Status::UnsupportedCommand)
    }

    open spec fn outlives(before: &Self, after: &Self, event: Lifecycle) -> bool {
        let Lifecycle::FabricRemoved(fabric) = event;
        &&& after.targets@ == before.targets@.filter(not_of_fabric(fabric))
        &&& after.per_fabric == before.per_fabric
    }

    open spec fn unfit(&self, resolved: ResolvedCommand) -> Status {
        Status::Failure
    }

    fn answer(&self, resolved: &Resolved, ctx: &InteractionContext, tag: Tag) -> (a: Result<Vec<u8>, Status>) {
        if resolved.attribute != BINDING {
            return Err(Status::UnsupportedAttribute);
        }
        Ok(self.encode_targets(ctx, tag))
    }

    fn write(&mut self, resolved: &Resolved, data: &[u8], op: WriteOp, ctx: &InteractionContext) -> (r: Result<(), Status>) {
        if resolved.attribute != BINDING {
            return Err(Status::UnsupportedWrite);
        }
        let fabric: FabricIndex = match ctx.fabric_index {
            None => return Err(Status::UnsupportedAccess),
            Some(fabric) => fabric,
        };
        let e: Element = match tlv::read_element(data, 0) {
            None => return Err(Status::InvalidAction),
            Some((e, _)) => e,
        };
        match op {
            WriteOp::Replace => {
                let start: usize = match e.value {
                    Value::Container(ContainerKind::Array, start) => start,
                    _ => return Err(Status::InvalidAction),
                };
                match decode_targets::<N>(data, start, fabric) {
                    Err(status) => Err(status),
                    Ok(new) => self.replace(fabric, new.as_slice()),
                }
            },
            WriteOp::Append => {
                let start: usize = match e.value {
                    Value::Container(ContainerKind::Structure, start) => start,
                    _ => return Err(Status::InvalidAction),
                };
                match decode_target(data, start, fabric) {
                    Err(status) => Err(status),
                    Ok(t) => self.add(t),
                }
            },
        }
    }

    fn perform(
        &mut self,
        resolved: &ResolvedCommand,
        fields: Option<&[u8]>,
        ctx: &InteractionContext,
        tag: Tag,
    ) -> (a: Result<Reply, StatusIb>) {
        im::refuse(Status::UnsupportedCommand)
    }

    fn on_lifecycle(&mut self, event: Lifecycle) {
        let Lifecycle::FabricRemoved(fabric) = event;
        self.remove_fabric(fabric);
    }

    fn unfit_status(&self, resolved: &ResolvedCommand) -> (s: Status) {
        Status::Failure
    }
}

/// A binding is to a node or to a group; an endpoint is never without its node, nor with a group.
pub proof fn law_a_binding_is_unicast_or_groupcast(t: Target)
    requires
        t.valid(),
    ensures
        t.node is Some || t.group is Some,
        t.endpoint is Some ==> t.node is Some && t.group is None,
{
}

/// Whatever fabric a client names, a binding that it writes is the accessing fabric's.
pub proof fn law_a_binding_belongs_to_its_writer(b: Seq<u8>, pos: int, fabric: FabricIndex)
    ensures
        target_at(b, pos, fabric) matches Ok(t) ==> t.fabric_index == fabric && t.valid(),
{
    let s = tlv::scan(b, pos);
    lemma_fabric_kept(s.items, s.items.len() as int, fabric);
}

proof fn lemma_fabric_kept(items: Seq<Element>, n: int, fabric: FabricIndex)
    ensures
        target_after(items, n, fabric) matches Ok(t) ==> t.fabric_index == fabric,
    decreases n,
{
    if n > 0 {
        lemma_fabric_kept(items, n - 1, fabric);
    }
}

proof fn lemma_targets_fabric(b: Seq<u8>, items: Seq<Element>, n: int, fabric: FabricIndex, cap: nat)
    ensures
        targets_after(b, items, n, fabric, cap) matches Ok(targets) ==> forall|i: int|
            0 <= i < targets.len() ==> (#[trigger] targets[i]).fabric_index == fabric,
    decreases n,
{
    if n > 0 {
        lemma_targets_fabric(b, items, n - 1, fabric, cap);
        law_a_binding_belongs_to_its_writer(b, items[n - 1].content(), fabric);
    }
}

/// A write by one fabric leaves the bindings of every other.
pub proof fn law_a_write_stays_in_its_fabric(
    targets: Seq<Target>,
    b: Seq<u8>,
    op: WriteOp,
    ctx: InteractionContext,
    per_fabric: nat,
    cap: nat,
    other: FabricIndex,
)
    requires
        ctx.fabric_index != Some(other),
        targets.len() <= cap,
    ensures
        written(targets, b, op, ctx, per_fabric, cap).0.filter(of_fabric(other)) == targets.filter(of_fabric(other)),
{
    if let Some(fabric) = ctx.fabric_index {
        if let Some((e, _)) = tlv::element_at(b, 0) {
            match op {
                WriteOp::Replace => {
                    if let Ok(new) = targets_at(b, e.content(), fabric, cap) {
                        let s = tlv::scan(b, e.content());
                        lemma_targets_fabric(b, s.items, s.items.len() as int, fabric, cap);
                        let others = targets.filter(not_of_fabric(fabric));
                        let shown = bounded::leading(new, (cap - others.len()) as nat);
                        bounded::lemma_filter(targets, not_of_fabric(fabric));
                        bounded::lemma_filter_filter(targets, not_of_fabric(fabric), of_fabric(other), of_fabric(other));
                        bounded::lemma_filter_none(shown, of_fabric(other));
                        Seq::filter_distributes_over_add(others, shown, of_fabric(other));
                        assert(others.filter(of_fabric(other)) + Seq::<Target>::empty() =~= others.filter(
                            of_fabric(other),
                        ));
                    }
                },
                WriteOp::Append => {
                    if let Ok(t) = target_at(b, e.content(), fabric) {
                        law_a_binding_belongs_to_its_writer(b, e.content(), fabric);
                        bounded::lemma_filter_push(targets, t, of_fabric(other));
                    }
                },
            }
        }
    }
}

/// No fabric ever has more bindings than its share.
pub proof fn law_a_quota_is_kept(targets: Seq<Target>, t: Target, per_fabric: nat, cap: nat, fabric: FabricIndex)
    requires
        bounded::count(targets, of_fabric(fabric)) <= per_fabric,
    ensures
        bounded::count(added(targets, t, per_fabric, cap).0, of_fabric(fabric)) <= per_fabric,
{
    bounded::lemma_filter_push(targets, t, of_fabric(fabric));
}

/// The fields of a binding as an item of a list.
pub open spec fn target_fields(t: Target) -> Seq<(u8, Option<u64>)> {
    seq![
        (1u8, node_of(t.node)),
        (2u8, group_of(t.group)),
        (3u8, endpoint_of(t.endpoint)),
        (4u8, cluster_of(t.cluster)),
        (FABRIC_INDEX_FIELD, Some(t.fabric_index.0 as u64)),
    ]
}

proof fn lemma_target_prefix(a: Seq<Element>, c: Seq<Element>, n: int, fabric: FabricIndex)
    requires
        0 <= n <= a.len(),
    ensures
        target_after(a + c, n, fabric) == target_after(a, n, fabric),
    decreases n,
{
    if n > 0 {
        lemma_target_prefix(a, c, n - 1, fabric);
    }
}

/// What fields say of a binding, one after the other.
spec fn target_of(fields: Seq<(u8, Option<u64>)>, fabric: FabricIndex) -> Result<Target, Status>
    decreases fields.len(),
{
    if fields.len() == 0 {
        Ok(nothing(fabric))
    } else {
        match target_of(fields.drop_last(), fabric) {
            Err(status) => Err(status),
            Ok(t) => match fields.last().1 {
                None => Ok(t),
                Some(v) => target_with(t, Element { context: Some(fields.last().0), value: Value::Unsigned(v) }),
            },
        }
    }
}

proof fn lemma_target_of(fields: Seq<(u8, Option<u64>)>, fabric: FabricIndex)
    ensures
        target_after(tlv::fields_elements(fields), tlv::fields_elements(fields).len() as int, fabric) == target_of(fields, fabric),
    decreases fields.len(),
{
    if fields.len() > 0 {
        lemma_target_of(fields.drop_last(), fabric);
        let a = tlv::fields_elements(fields.drop_last());
        let c = tlv::optional_element(fields.last().0, fields.last().1);
        lemma_target_prefix(a, c, a.len() as int, fabric);
    }
}

/// The fields of a binding give it back.
proof fn lemma_target_fields(t: Target)
    requires
        t.group != Some(GroupId(0)),
    ensures
        target_of(target_fields(t), t.fabric_index) == Ok::<Target, Status>(t),
        target_bytes(t) == tlv::structure_bytes(Tag::Anonymous, tlv::fields_bytes(target_fields(t))),
{
    let all = target_fields(t);
    let f4 = all.drop_last();
    let f3 = f4.drop_last();
    let f2 = f3.drop_last();
    let f1 = f2.drop_last();
    assert(f1.drop_last() =~= Seq::<(u8, Option<u64>)>::empty());
    reveal_with_fuel(target_of, 6);
    reveal_with_fuel(tlv::fields_bytes, 6);
    let x1 = tlv::optional_bytes(Tag::Context(1), node_of(t.node));
    assert(Seq::<u8>::empty() + x1 =~= x1);
}

/// A binding that a read gave is the same binding where it is written: wherever it stands in data
/// that memory can hold, for a binding that can be one, and not to the group that is none.
pub proof fn law_a_binding_round_trip(b: Seq<u8>, pos: int, t: Target)
    requires
        tlv::stands(b, pos, target_bytes(t)),
        b.len() <= usize::MAX,
        t.valid(),
        t.group != Some(GroupId(0)),
    ensures
        ({
            let e = Element { context: None, value: Value::Container(ContainerKind::Structure, (pos + 1) as usize) };
            &&& tlv::element_at(b, pos) == Some((e, pos + 1))
            &&& e.content() == pos + 1
            &&& target_at(b, pos + 1, t.fabric_index) == Ok::<Target, Status>(t)
            &&& tlv::behind(b, e, pos + 1) == Some(pos + target_bytes(t).len())
            &&& tlv::balanced(b, pos, target_bytes(t))
        }),
{
    lemma_target_fields(t);
    tlv::lemma_structure_of_fields(b, pos, Tag::Anonymous, target_fields(t));
    lemma_target_of(target_fields(t), t.fabric_index);
}

/// How each binding is encoded.
pub open spec fn encoding() -> spec_fn(Target) -> Seq<u8> {
    |t: Target| target_bytes(t)
}

/// Whether bindings are ones that a write by a fabric can give.
pub open spec fn writable(targets: Seq<Target>, fabric: FabricIndex) -> bool {
    forall|i: int|
        0 <= i < targets.len() ==> (#[trigger] targets[i]).fabric_index == fabric && targets[i].valid() && targets[i].group != Some(
            GroupId(0),
        )
}

proof fn lemma_targets_back(b: Seq<u8>, pos: int, targets: Seq<Target>, items: Seq<Element>, n: int, fabric: FabricIndex, cap: nat)
    requires
        tlv::stands(b, pos, tlv::concat(targets.take(n), encoding())),
        b.len() <= usize::MAX,
        writable(targets, fabric),
        0 <= n <= targets.len() <= cap,
        n <= items.len(),
        items.take(n) == tlv::concat_elements(b, pos, targets.take(n), encoding()),
    ensures
        targets_after(b, items, n, fabric, cap) == Ok::<Seq<Target>, Status>(targets.take(n)),
    decreases n,
{
    if n > 0 {
        let before = targets.take(n - 1);
        let t = targets[n - 1];
        assert(targets.take(n) =~= before.push(t));
        assert(before.push(t).drop_last() =~= before);
        let x = tlv::concat(before, encoding());
        tlv::lemma_concat_push(before, t, encoding());
        tlv::lemma_stands_both(b, pos, x, target_bytes(t));
        law_a_binding_round_trip(b, pos + x.len(), t);
        let (e, _) = tlv::element_at(b, pos + x.len())->Some_0;
        let found = tlv::concat_elements(b, pos, before, encoding());
        assert(items.take(n) == found.push(e));
        assert(items.take(n - 1) =~= found.push(e).drop_last());
        assert(found.push(e).drop_last() =~= found);
        assert(items[n - 1] == items.take(n)[n - 1]);
        lemma_targets_back(b, pos, targets, items, n - 1, fabric, cap);
    } else {
        assert(targets.take(0) =~= Seq::<Target>::empty());
    }
}

/// The list of a fabric's bindings that a read gave is the same list where it is written: bindings
/// that a write can give, in data that memory can hold.
pub proof fn law_a_list_round_trip(tag: Tag, targets: Seq<Target>, fabric: FabricIndex, cap: nat)
    requires
        tlv::array_bytes(tag, tlv::concat(targets, encoding())).len() <= usize::MAX,
        writable(targets, fabric),
        targets.len() <= cap,
    ensures
        ({
            let b = tlv::array_bytes(tag, tlv::concat(targets, encoding()));
            tlv::element_at(b, 0) matches Some((e, _)) && e.is_array() && targets_at(b, e.content(), fabric, cap) == Ok::<
                Seq<Target>,
                Status,
            >(targets)
        }),
{
    let b = tlv::array_bytes(tag, tlv::concat(targets, encoding()));
    assert(b.subrange(0, b.len() as int) =~= b);
    assert forall|i: int, p: int| 0 <= i < targets.len() && #[trigger] tlv::stands(b, p, encoding()(targets[i])) implies tlv::whole(
        b,
        p,
        encoding()(targets[i]),
    ) by {
        law_a_binding_round_trip(b, p, targets[i]);
    }
    tlv::lemma_array_of_items(b, 0, tag, targets, encoding());
    let at = tlv::header(tag, 0x15).len() as int;
    let items = tlv::concat_elements(b, at, targets, encoding());
    tlv::lemma_concat_elements_len(b, at, targets, encoding());
    assert(targets.take(targets.len() as int) =~= targets);
    assert(items.take(items.len() as int) =~= items);
    lemma_targets_back(b, at, targets, items, targets.len() as int, fabric, cap);
}

proof fn lemma_visible(targets: Seq<Target>, ctx: InteractionContext, fabric: FabricIndex, n: int)
    requires
        ctx.fabric_filtered,
        ctx.fabric_index == Some(fabric),
        0 <= n <= targets.len(),
    ensures
        visible_items(targets, ctx, n) == tlv::concat(targets.take(n).filter(of_fabric(fabric)), encoding()),
    decreases n,
{
    reveal(Seq::filter);
    if n > 0 {
        lemma_visible(targets, ctx, fabric, n - 1);
        let kept = targets.take(n - 1).filter(of_fabric(fabric));
        bounded::lemma_filter_take(targets, n - 1, of_fabric(fabric));
        if targets[n - 1].fabric_index == fabric {
            tlv::lemma_concat_push(kept, targets[n - 1], encoding());
        } else {
            assert(visible_items(targets, ctx, n - 1) + Seq::<u8>::empty() =~= visible_items(targets, ctx, n - 1));
        }
    }
}

/// A fabric that reads its own bindings and writes them back keeps them: in a table that holds only
/// bindings that a write can give, within its share, in data that memory can hold.
pub proof fn law_writing_back_what_was_read(
    targets: Seq<Target>,
    ctx: InteractionContext,
    fabric: FabricIndex,
    per_fabric: nat,
    cap: nat,
)
    requires
        ctx.fabric_filtered,
        ctx.fabric_index == Some(fabric),
        writable(targets.filter(of_fabric(fabric)), fabric),
        bounded::count(targets, of_fabric(fabric)) <= per_fabric,
        targets.len() <= cap,
        tlv::array_bytes(Tag::Anonymous, visible_items(targets, ctx, targets.len() as int)).len() <= usize::MAX,
    ensures
        ({
            let b = tlv::array_bytes(Tag::Anonymous, visible_items(targets, ctx, targets.len() as int));
            written(targets, b, WriteOp::Replace, ctx, per_fabric, cap) == (
                targets.filter(not_of_fabric(fabric)) + targets.filter(of_fabric(fabric)),
                None::<Status>,
            )
        }),
{
    let own = targets.filter(of_fabric(fabric));
    lemma_visible(targets, ctx, fabric, targets.len() as int);
    assert(targets.take(targets.len() as int) =~= targets);
    bounded::lemma_filter(targets, of_fabric(fabric));
    law_a_list_round_trip(Tag::Anonymous, own, fabric, cap);
    lemma_split(targets, fabric);
    let others = targets.filter(not_of_fabric(fabric));
    assert(bounded::leading(own, (cap - others.len()) as nat) =~= own);
}

proof fn lemma_split(targets: Seq<Target>, fabric: FabricIndex)
    ensures
        targets.filter(of_fabric(fabric)).len() + targets.filter(not_of_fabric(fabric)).len() == targets.len(),
    decreases targets.len(),
{
    reveal(Seq::filter);
    if targets.len() > 0 {
        lemma_split(targets.drop_last(), fabric);
    }
}

/// What a fabric wrote is what it reads: the list of the bindings that the data held.
pub proof fn law_a_write_is_read_back(
    targets: Seq<Target>,
    b: Seq<u8>,
    ctx: InteractionContext,
    fabric: FabricIndex,
    per_fabric: nat,
    cap: nat,
)
    requires
        ctx.fabric_filtered,
        ctx.fabric_index == Some(fabric),
        targets.len() <= cap,
        written(targets, b, WriteOp::Replace, ctx, per_fabric, cap).1 is None,
    ensures
        ({
            let after = written(targets, b, WriteOp::Replace, ctx, per_fabric, cap).0;
            tlv::element_at(b, 0) matches Some((e, _)) && (targets_at(b, e.content(), fabric, cap) matches Ok(new) && visible_items(
                after,
                ctx,
                after.len() as int,
            ) == tlv::concat(new, encoding()))
        }),
{
    let (e, _) = tlv::element_at(b, 0)->0;
    let s = tlv::scan(b, e.content());
    lemma_targets_fabric(b, s.items, s.items.len() as int, fabric, cap);
    let new = targets_at(b, e.content(), fabric, cap)->Ok_0;
    let others = targets.filter(not_of_fabric(fabric));
    bounded::lemma_filter(targets, not_of_fabric(fabric));
    let after = others + bounded::leading(new, (cap - others.len()) as nat);
    assert(bounded::leading(new, (cap - others.len()) as nat) =~= new);
    lemma_visible(after, ctx, fabric, after.len() as int);
    assert(after.take(after.len() as int) =~= after);
    Seq::filter_distributes_over_add(others, new, of_fabric(fabric));
    bounded::lemma_filter_none(others, of_fabric(fabric));
    bounded::lemma_filter_all(new, of_fabric(fabric));
    assert(Seq::<Target>::empty() + new =~= new);
}

proof fn lemma_fields_bytes(t: Target)
    ensures
        target_bytes(t) == tlv::structure_bytes(Tag::Anonymous, tlv::fields_bytes(target_fields(t))),
{
    let all = target_fields(t);
    let f4 = all.drop_last();
    let f3 = f4.drop_last();
    let f2 = f3.drop_last();
    let f1 = f2.drop_last();
    assert(f1.drop_last() =~= Seq::<(u8, Option<u64>)>::empty());
    reveal_with_fuel(tlv::fields_bytes, 6);
    let x1 = tlv::optional_bytes(Tag::Context(1), node_of(t.node));
    assert(Seq::<u8>::empty() + x1 =~= x1);
}

/// What a binding shows of itself on the wire, under the numbers of its fields.
pub proof fn law_a_binding_is_shown(t: Target)
    requires
        target_bytes(t).len() <= usize::MAX,
    ensures
        tlv::shows_record(
            target_bytes(t),
            0,
            Tag::Anonymous,
            seq![
                (
                    1u8,
                    match t.node {
                        Some(v) => Some(v.0),
                        None => None,
                    },
                ),
                (
                    2u8,
                    match t.group {
                        Some(v) => Some(v.0 as u64),
                        None => None,
                    },
                ),
                (
                    3u8,
                    match t.endpoint {
                        Some(v) => Some(v as u64),
                        None => None,
                    },
                ),
                (
                    4u8,
                    match t.cluster {
                        Some(v) => Some(v as u64),
                        None => None,
                    },
                ),
                (254u8, Some(t.fabric_index.0 as u64)),
            ],
        ),
{
    lemma_fields_bytes(t);
    tlv::lemma_stands_whole(target_bytes(t));
    tlv::lemma_shows_record(target_bytes(t), 0, Tag::Anonymous, target_fields(t));
    assert(target_fields(t) =~= seq![
        (
            1u8,
            match t.node {
                Some(v) => Some(v.0),
                None => None,
            },
        ),
        (
            2u8,
            match t.group {
                Some(v) => Some(v.0 as u64),
                None => None,
            },
        ),
        (
            3u8,
            match t.endpoint {
                Some(v) => Some(v as u64),
                None => None,
            },
        ),
        (
            4u8,
            match t.cluster {
                Some(v) => Some(v as u64),
                None => None,
            },
        ),
        (254u8, Some(t.fabric_index.0 as u64)),
    ]);
}

/// A binding is to a node and an endpoint of it, perhaps to one cluster there, or to a group, and to nothing else.
pub proof fn law_what_may_be_bound(t: Target)
    ensures
        t.valid() == ({
            &&& t.node is Some || (t.group is Some && t.endpoint is None)
            &&& t.group is None || t.endpoint is None
            &&& t.endpoint is None || t.endpoint->Some_0 < 0xFFFF
            &&& t.cluster is None || t.cluster->Some_0 <= 0x7FFF || (0x1_0000 <= t.cluster->Some_0 < 0xFFF5_0000 && 0xFC00
                <= t.cluster->Some_0 % 0x1_0000 <= 0xFFFE)
        }),
{
}

/// A binding that is appended comes last, exactly where it may be one, belongs to a fabric and neither that fabric nor the
/// table is full; a list takes the place of all of the fabric's bindings, behind those of the others, where it is no more than
/// the fabric's share and finds room; and what is refused for what it says changes nothing.
pub proof fn law_bindings_are_written<const N: usize>(
    before: Binding<N>,
    after: Binding<N>,
    resolved: Resolved,
    b: Seq<u8>,
    op: WriteOp,
    ctx: InteractionContext,
    fabric: FabricIndex,
    r: Result<(), Status>,
)
    requires
        Binding::writes(&before, &after, resolved, b, op, ctx, r),
        resolved.attribute == 0x0000,
        ctx.fabric_index == Some(fabric),
        before.targets@.len() <= N,
    ensures
        ({
            let was = before.targets@;
            let others = was.filter(|t: Target| t.fabric_index != fabric);
            let own = was.filter(|t: Target| t.fabric_index == fabric);
            match tlv::element_at(b, 0) {
                None => r == Err::<(), Status>(Status::InvalidAction) && after.targets@ == was,
                Some((e, _)) => if op is Append {
                    if !e.is_structure() {
                        r == Err::<(), Status>(Status::InvalidAction) && after.targets@ == was
                    } else {
                        match target_at(b, e.content(), fabric) {
                            Err(status) => r == Err::<(), Status>(status) && after.targets@ == was,
                            Ok(t) => if fabric.0 == 0 {
                                r == Err::<(), Status>(Status::ConstraintError) && after.targets@ == was
                            } else if own.len() >= before.per_fabric || was.len() >= N {
                                r == Err::<(), Status>(Status::ResourceExhausted) && after.targets@ == was
                            } else {
                                r is Ok && after.targets@ == was.push(t)
                            },
                        }
                    }
                } else {
                    if !e.is_array() {
                        r == Err::<(), Status>(Status::InvalidAction) && after.targets@ == was
                    } else {
                        match targets_at(b, e.content(), fabric, N as nat) {
                            Err(status) => r == Err::<(), Status>(status) && after.targets@ == was,
                            Ok(new) => if new.len() > before.per_fabric {
                                r == Err::<(), Status>(Status::ResourceExhausted) && after.targets@ == was
                            } else if others.len() + new.len() <= N {
                                r is Ok && after.targets@ == others + new
                            } else {
                                r == Err::<(), Status>(Status::ResourceExhausted) && after.targets@ == others + new.take(N - others.len())
                            },
                        }
                    }
                },
            }
        }),
{
    assert(of_fabric(fabric) =~= |t: Target| t.fabric_index == fabric);
    assert(not_of_fabric(fabric) =~= |t: Target| t.fabric_index != fabric);
    bounded::lemma_filter(before.targets@, not_of_fabric(fabric));
    if let Some((e, _)) = tlv::element_at(b, 0) {
        law_a_binding_belongs_to_its_writer(b, e.content(), fabric);
    }
}

/// Who may do what: the bindings can be read with View and written with Manage, for the accessing fabric; and there is no command.
pub proof fn law_bindings_are_for_managers(d: AttributeDescriptor)
    requires
        description().attributes.contains(d),
    ensures
        d.id == 0x0000,
        d.access.read == Some(Privilege::View),
        d.access.write == Some(Privilege::Manage),
        d.access.qualities.fabric_scoped && !d.access.qualities.timed,
        d.qualities.non_volatile,
        description().accepted_commands.len() == 0,
        description().id == 0x001E,
{
}

/// A fabric that is removed takes its bindings along, all of them and no others.
pub proof fn law_a_removed_fabric_takes_its_bindings<const N: usize>(before: Binding<N>, after: Binding<N>, fabric: FabricIndex, x: Target)
    requires
        Binding::outlives(&before, &after, Lifecycle::FabricRemoved(fabric)),
    ensures
        after.targets@.contains(x) == (before.targets@.contains(x) && x.fabric_index != fabric),
        after.targets@ == before.targets@.filter(|e: Target| e.fabric_index != fabric),
{
    assert(not_of_fabric(fabric) =~= |e: Target| e.fabric_index != fabric);
    bounded::lemma_filter(before.targets@, not_of_fabric(fabric));
}

} // verus!
