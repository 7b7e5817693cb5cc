//! The data model: privileges, and how a cluster describes itself.

use vstd::prelude::*;

use crate::bounded;
use crate::im::{AttributeId, ClusterId, CommandId, EndpointId, EventId};

verus! {

/// What a subject may do.
#[derive(Debug, Clone, Copy, PartialEq, Eq, Structural)]
pub enum Privilege {
    /// Read.
    View,
    /// Read, as a proxy.
    ProxyView,
    /// Use.
    Operate,
    /// Configure.
    Manage,
    /// Everything.
    Administer,
}

impl Privilege {
    /// Whether holding this privilege allows what `needed` asks for: Administer allows all,
    /// Manage all below it, Operate all below that but the proxy's, and the two views their own;
    /// the proxy's view allows View.
    pub open spec fn covers(self, needed: Privilege) -> bool {
        match self {
            Privilege::Administer => true,
            Privilege::Manage => needed is View || needed is Operate || needed is Manage,
            Privilege::Operate => needed is View || needed is Operate,
            Privilege::ProxyView => needed is View || needed is ProxyView,
            Privilege::View => needed is View,
        }
    }

    /// Whether holding this privilege allows what `needed` asks for.
    pub fn grants(self, needed: Privilege) -> (r: bool)
        ensures
            r == self.covers(needed),
    {
        match self {
            Privilege::Administer => true,
            Privilege::Manage => matches!(needed, Privilege::View | Privilege::Operate | Privilege::Manage),
            Privilege::Operate => matches!(needed, Privilege::View | Privilege::Operate),
            Privilege::ProxyView => matches!(needed, Privilege::View | Privilege::ProxyView),
            Privilege::View => matches!(needed, Privilege::View),
        }
    }
}

/// What else an access depends on.
#[derive(Debug, Clone, Copy, PartialEq, Eq, Structural)]
pub struct AccessQualities {
    /// It needs an accessing fabric, and concerns that fabric's data.
    pub fabric_scoped: bool,
    /// Its data is shown to its own fabric alone.
    pub fabric_sensitive: bool,
    /// It has to be part of a timed interaction.
    pub timed: bool,
}

impl AccessQualities {
    /// None.
    pub fn none() -> (q: Self)
        ensures
            q == (AccessQualities { fabric_scoped: false, fabric_sensitive: false, timed: false }),
    {
        AccessQualities { fabric_scoped: false, fabric_sensitive: false, timed: false }
    }

    /// Fabric-scoped alone.
    pub fn fabric_scoped() -> (q: Self)
        ensures
            q == (AccessQualities { fabric_scoped: true, fabric_sensitive: false, timed: false }),
    {
        AccessQualities { fabric_scoped: true, fabric_sensitive: false, timed: false }
    }

    /// Timed alone.
    pub fn timed() -> (q: Self)
        ensures
            q == (AccessQualities { fabric_scoped: false, fabric_sensitive: false, timed: true }),
    {
        AccessQualities { fabric_scoped: false, fabric_sensitive: false, timed: true }
    }
}

/// Who may do what with an element.
#[derive(Debug, Clone, Copy, PartialEq, Eq, Structural)]
pub struct Access {
    /// What reading needs; `None` where it cannot be read.
    pub read: Option<Privilege>,
    /// What writing needs; `None` where it cannot be written.
    pub write: Option<Privilege>,
    /// What invoking needs; `None` where it cannot be invoked.
    pub invoke: Option<Privilege>,
    /// What else it depends on.
    pub qualities: AccessQualities,
}

/// No quality of access.
pub open spec fn plain_access() -> AccessQualities {
    AccessQualities { fabric_scoped: false, fabric_sensitive: false, timed: false }
}

/// A timed interaction alone.
pub open spec fn timed_access() -> AccessQualities {
    AccessQualities { fabric_scoped: false, fabric_sensitive: false, timed: true }
}

/// Fabric-scoped alone.
pub open spec fn scoped_access() -> AccessQualities {
    AccessQualities { fabric_scoped: true, fabric_sensitive: false, timed: false }
}

impl Access {
    /// An element that can be read.
    pub open spec fn reads(read: Privilege) -> Access {
        Access { read: Some(read), write: None, invoke: None, qualities: plain_access() }
    }

    /// An element that can be read and written.
    pub open spec fn reads_and_writes(read: Privilege, write: Privilege) -> Access {
        Access { read: Some(read), write: Some(write), invoke: None, qualities: plain_access() }
    }

    /// An element that can be invoked.
    pub open spec fn invokes(invoke: Privilege) -> Access {
        Access { read: None, write: None, invoke: Some(invoke), qualities: plain_access() }
    }

    /// An element that can be read.
    pub fn read_only(read: Privilege) -> (a: Self)
        ensures
            a == Access::reads(read),
    {
        Access { read: Some(read), write: None, invoke: None, qualities: AccessQualities::none() }
    }

    /// An element that can be read and written.
    pub fn read_write_with(read: Privilege, write: Privilege) -> (a: Self)
        ensures
            a == Access::reads_and_writes(read, write),
    {
        Access { read: Some(read), write: Some(write), invoke: None, qualities: AccessQualities::none() }
    }

    /// An element that can be invoked.
    pub fn invoke(invoke: Privilege) -> (a: Self)
        ensures
            a == Access::invokes(invoke),
    {
        Access { read: None, write: None, invoke: Some(invoke), qualities: AccessQualities::none() }
    }

    /// The same with other qualities.
    pub fn with_qualities(self, qualities: AccessQualities) -> (a: Self)
        ensures
            a == (Access { qualities, ..self }),
    {
        Access { qualities, ..self }
    }

    /// Whether it needs an accessing fabric.
    pub fn is_fabric_scoped(&self) -> (r: bool)
        ensures
            r == self.qualities.fabric_scoped,
    {
        self.qualities.fabric_scoped
    }

    /// Whether it has to be part of a timed interaction.
    pub fn is_timed(&self) -> (r: bool)
        ensures
            r == self.qualities.timed,
    {
        self.qualities.timed
    }
}

/// What an attribute's value is like.
#[derive(Debug, Clone, Copy, PartialEq, Eq, Structural)]
pub struct AttributeQualities {
    /// It survives a restart.
    pub non_volatile: bool,
    /// It never changes.
    pub fixed: bool,
    /// It can be null.
    pub nullable: bool,
}

/// No quality of a value.
pub open spec fn plain_value() -> AttributeQualities {
    AttributeQualities { non_volatile: false, fixed: false, nullable: false }
}

/// A value that survives a restart.
pub open spec fn kept_value() -> AttributeQualities {
    AttributeQualities { non_volatile: true, fixed: false, nullable: false }
}

/// A value that never changes.
pub open spec fn fixed_value() -> AttributeQualities {
    AttributeQualities { non_volatile: false, fixed: true, nullable: false }
}

/// A value that can be null.
pub open spec fn nullable_value() -> AttributeQualities {
    AttributeQualities { non_volatile: false, fixed: false, nullable: true }
}

impl AttributeQualities {
    /// None.
    pub fn none() -> (q: Self)
        ensures
            q == plain_value(),
    {
        AttributeQualities { non_volatile: false, fixed: false, nullable: false }
    }

    /// Survives a restart.
    pub fn non_volatile() -> (q: Self)
        ensures
            q == kept_value(),
    {
        AttributeQualities { non_volatile: true, fixed: false, nullable: false }
    }

    /// Never changes.
    pub fn fixed() -> (q: Self)
        ensures
            q == fixed_value(),
    {
        AttributeQualities { non_volatile: false, fixed: true, nullable: false }
    }

    /// Can be null.
    pub fn nullable() -> (q: Self)
        ensures
            q == nullable_value(),
    {
        AttributeQualities { non_volatile: false, fixed: false, nullable: true }
    }
}

impl AttributeQualities {
    /// Whether all of some qualities are there.
    pub fn contains(self, other: AttributeQualities) -> (r: bool)
        ensures
            r == ((other.non_volatile ==> self.non_volatile) && (other.fixed ==> self.fixed) && (other.nullable
                ==> self.nullable)),
    {
        (!other.non_volatile || self.non_volatile) && (!other.fixed || self.fixed) && (!other.nullable || self.nullable)
    }
}

/// Whether an identifier can be a cluster's: a standard one up to `0x7FFF`, or a manufacturer's
/// from `0xFC00` to `0xFFFE`.
pub open spec fn cluster_valid(id: ClusterId) -> bool {
    let prefix = id / 0x1_0000;
    let suffix = id % 0x1_0000;
    (prefix == 0 && suffix <= 0x7FFF) || (1 <= prefix <= 0xFFF4 && 0xFC00 <= suffix <= 0xFFFE)
}

/// Whether an identifier can be a cluster's.
pub fn cluster_is_valid(id: ClusterId) -> (r: bool)
    ensures
        r == cluster_valid(id),
{
    let prefix: u32 = id / 0x1_0000;
    let suffix: u32 = id % 0x1_0000;
    (prefix == 0 && suffix <= 0x7FFF) || (1 <= prefix && prefix <= 0xFFF4 && 0xFC00 <= suffix && suffix <= 0xFFFE)
}

/// Whether an identifier can be a device type's: up to `0xBFFF`, standard or a manufacturer's.
pub open spec fn device_type_valid(id: u32) -> bool {
    id / 0x1_0000 <= 0xFFF4 && id % 0x1_0000 <= 0xBFFF
}

/// Whether an identifier can be a device type's.
pub fn device_type_is_valid(id: u32) -> (r: bool)
    ensures
        r == device_type_valid(id),
{
    id / 0x1_0000 <= 0xFFF4 && id % 0x1_0000 <= 0xBFFF
}

/// An attribute, as its cluster describes it.
#[derive(Debug, Clone, Copy, PartialEq, Eq, Structural)]
pub struct AttributeDescriptor {
    /// Which one.
    pub id: AttributeId,
    /// Who may do what with it.
    pub access: Access,
    /// What its value is like.
    pub qualities: AttributeQualities,
}

/// An attribute that View can read.
pub open spec fn readable(id: AttributeId, qualities: AttributeQualities) -> AttributeDescriptor {
    AttributeDescriptor { id, access: Access::reads(Privilege::View), qualities }
}

/// An attribute that View can read and that writing needs a privilege for.
pub open spec fn writable(id: AttributeId, write: Privilege, qualities: AttributeQualities) -> AttributeDescriptor {
    AttributeDescriptor { id, access: Access::reads_and_writes(Privilege::View, write), qualities }
}

impl AttributeDescriptor {
    /// One that View can read.
    pub fn read_only(id: AttributeId) -> (d: Self)
        ensures
            d == readable(id, plain_value()),
    {
        AttributeDescriptor { id, access: Access::read_only(Privilege::View), qualities: AttributeQualities::none() }
    }

    /// One that View can read and Operate can write.
    pub fn read_write(id: AttributeId) -> (d: Self)
        ensures
            d == writable(id, Privilege::Operate, plain_value()),
    {
        AttributeDescriptor {
            id,
            access: Access::read_write_with(Privilege::View, Privilege::Operate),
            qualities: AttributeQualities::none(),
        }
    }

    /// The same with another access.
    pub fn with_access(self, access: Access) -> (d: Self)
        ensures
            d == (AttributeDescriptor { access, ..self }),
    {
        AttributeDescriptor { access, ..self }
    }

    /// The same with other qualities.
    pub fn with_qualities(self, qualities: AttributeQualities) -> (d: Self)
        ensures
            d == (AttributeDescriptor { qualities, ..self }),
    {
        AttributeDescriptor { qualities, ..self }
    }
}

/// A command that a cluster accepts, as the cluster describes it.
#[derive(Debug, Clone, Copy, PartialEq, Eq, Structural)]
pub struct CommandDescriptor {
    /// Which one.
    pub id: CommandId,
    /// Who may invoke it.
    pub access: Access,
    /// What it is answered with, where that is more than a status.
    pub response: Option<CommandId>,
}

/// A command that a privilege can invoke.
pub open spec fn invocable(id: CommandId, invoke: Privilege, response: Option<CommandId>) -> CommandDescriptor {
    CommandDescriptor { id, access: Access::invokes(invoke), response }
}

impl CommandDescriptor {
    /// One that Operate can invoke, answered with a status.
    pub fn new(id: CommandId) -> (d: Self)
        ensures
            d == invocable(id, Privilege::Operate, None),
    {
        CommandDescriptor { id, access: Access::invoke(Privilege::Operate), response: None }
    }

    /// The same with another access.
    pub fn with_access(self, access: Access) -> (d: Self)
        ensures
            d == (CommandDescriptor { access, ..self }),
    {
        CommandDescriptor { access, ..self }
    }

    /// The same, answered with a response.
    pub fn with_response(self, response: CommandId) -> (d: Self)
        ensures
            d == (CommandDescriptor { response: Some(response), ..self }),
    {
        CommandDescriptor { response: Some(response), ..self }
    }
}

/// How much an event matters.
#[derive(Debug, Clone, Copy, PartialEq, Eq, Structural)]
pub enum EventPriority {
    /// To a developer.
    Debug,
    /// To a user who asks.
    Info,
    /// To everyone.
    Critical,
}

/// An event, as its cluster describes it.
#[derive(Debug, Clone, Copy, PartialEq, Eq, Structural)]
pub struct EventDescriptor {
    /// Which one.
    pub id: EventId,
    /// How much it matters.
    pub priority: EventPriority,
}

impl EventDescriptor {
    /// One of priority Info.
    pub fn new(id: EventId) -> (d: Self)
        ensures
            d == (EventDescriptor { id, priority: EventPriority::Info }),
    {
        EventDescriptor { id, priority: EventPriority::Info }
    }

    /// The same with another priority.
    pub fn with_priority(self, priority: EventPriority) -> (d: Self)
        ensures
            d == (EventDescriptor { priority, ..self }),
    {
        EventDescriptor { priority, ..self }
    }
}

/// A cluster, as it describes itself.
#[derive(Debug)]
pub struct ClusterDescriptor {
    /// Which one.
    pub id: ClusterId,
    /// Which revision of it.
    pub revision: u16,
    /// Its features.
    pub feature_map: u32,
    /// Its attributes.
    pub attributes: Vec<AttributeDescriptor>,
    /// The commands it accepts.
    pub accepted_commands: Vec<CommandDescriptor>,
    /// The commands it answers with.
    pub generated_commands: Vec<CommandId>,
    /// Its events.
    pub events: Vec<EventDescriptor>,
}

/// A cluster's description, as a value.
pub struct ClusterModel {
    /// Which one.
    pub id: ClusterId,
    /// Which revision of it.
    pub revision: u16,
    /// Its features.
    pub feature_map: u32,
    /// Its attributes.
    pub attributes: Seq<AttributeDescriptor>,
    /// The commands it accepts.
    pub accepted_commands: Seq<CommandDescriptor>,
    /// The commands it answers with.
    pub generated_commands: Seq<CommandId>,
    /// Its events.
    pub events: Seq<EventDescriptor>,
}

impl View for ClusterDescriptor {
    type V = ClusterModel;

    open spec fn view(&self) -> ClusterModel {
        ClusterModel {
            id: self.id,
            revision: self.revision,
            feature_map: self.feature_map,
            attributes: self.attributes@,
            accepted_commands: self.accepted_commands@,
            generated_commands: self.generated_commands@,
            events: self.events@,
        }
    }
}

/// An attribute of an id.
pub open spec fn attribute_is(id: AttributeId) -> spec_fn(AttributeDescriptor) -> bool {
    |d: AttributeDescriptor| d.id == id
}

/// A command of an id.
pub open spec fn command_is(id: CommandId) -> spec_fn(CommandDescriptor) -> bool {
    |d: CommandDescriptor| d.id == id
}

impl ClusterModel {
    /// An attribute of it.
    pub open spec fn attribute(self, id: AttributeId) -> Option<AttributeDescriptor> {
        match bounded::first(self.attributes, attribute_is(id)) {
            Some(i) => Some(self.attributes[i]),
            None => None,
        }
    }

    /// A command that it accepts.
    pub open spec fn command(self, id: CommandId) -> Option<CommandDescriptor> {
        match bounded::first(self.accepted_commands, command_is(id)) {
            Some(i) => Some(self.accepted_commands[i]),
            None => None,
        }
    }
}

impl ClusterDescriptor {
    /// An attribute of it.
    pub fn attribute(&self, id: AttributeId) -> (d: Option<AttributeDescriptor>)
        ensures
            d == self@.attribute(id),
    {
        let mut i: usize = 0;
        while i < self.attributes.len()
            invariant
                i <= self.attributes@.len(),
                bounded::first(self.attributes@, attribute_is(id)) == bounded::first_from(
                    self.attributes@,
                    attribute_is(id),
                    i as int,
                ),
            decreases self.attributes.len() - i,
        {
            if self.attributes[i].id == id {
                return Some(self.attributes[i]);
            }
            i = i + 1;
        }
        None
    }

    /// A command that it accepts.
    pub fn command(&self, id: CommandId) -> (d: Option<CommandDescriptor>)
        ensures
            d == self@.command(id),
    {
        let mut i: usize = 0;
        while i < self.accepted_commands.len()
            invariant
                i <= self.accepted_commands@.len(),
                bounded::first(self.accepted_commands@, command_is(id)) == bounded::first_from(
                    self.accepted_commands@,
                    command_is(id),
                    i as int,
                ),
            decreases self.accepted_commands.len() - i,
        {
            if self.accepted_commands[i].id == id {
                return Some(self.accepted_commands[i]);
            }
            i = i + 1;
        }
        None
    }
}

/// A device type that an endpoint claims to be.
#[derive(Debug, Clone, Copy, PartialEq, Eq, Structural)]
pub struct DeviceType {
    /// Which one.
    pub device_type: u32,
    /// Which revision of it.
    pub revision: u16,
}

/// An endpoint: its clusters, what it claims to be, and which clusters it uses as a client.
#[derive(Debug, Clone, Copy)]
pub struct Endpoint<'a> {
    /// Which one.
    pub id: EndpointId,
    /// The clusters that it serves.
    pub clusters: &'a [ClusterDescriptor],
    /// What it claims to be.
    pub device_types: &'a [DeviceType],
    /// The clusters that it uses as a client.
    pub clients: &'a [ClusterId],
}

/// A cluster of an id.
pub open spec fn cluster_is(id: ClusterId) -> spec_fn(ClusterDescriptor) -> bool {
    |c: ClusterDescriptor| c.id == id
}

/// An endpoint of an id.
pub open spec fn endpoint_is<'a>(id: EndpointId) -> spec_fn(Endpoint<'a>) -> bool {
    |e: Endpoint<'a>| e.id == id
}

impl<'a> Endpoint<'a> {
    /// An endpoint that serves clusters.
    pub fn new(id: EndpointId, clusters: &'a [ClusterDescriptor]) -> (e: Self)
        ensures
            e.id == id,
            e.clusters == clusters,
            e.device_types@ == Seq::<DeviceType>::empty(),
            e.clients@ == Seq::<ClusterId>::empty(),
    {
        Endpoint { id, clusters, device_types: &[], clients: &[] }
    }

    /// The same, claiming to be something.
    pub fn with_device_types(self, device_types: &'a [DeviceType]) -> (e: Self)
        ensures
            e == (Endpoint { device_types, ..self }),
    {
        Endpoint { device_types, ..self }
    }

    /// The same, using clusters as a client.
    pub fn with_clients(self, clients: &'a [ClusterId]) -> (e: Self)
        ensures
            e == (Endpoint { clients, ..self }),
    {
        Endpoint { clients, ..self }
    }

    /// Where a cluster is that it serves.
    pub open spec fn serves(self, id: ClusterId) -> Option<int> {
        bounded::first(self.clusters@, cluster_is(id))
    }

    /// A cluster that it serves.
    pub fn cluster(&self, id: ClusterId) -> (c: Option<&'a ClusterDescriptor>)
        ensures
            match c {
                Some(c) => self.serves(id) is Some && *c == self.clusters@[self.serves(id).unwrap()],
                None => self.serves(id) is None,
            },
    {
        let mut i: usize = 0;
        while i < self.clusters.len()
            invariant
                i <= self.clusters@.len(),
                bounded::first(self.clusters@, cluster_is(id)) == bounded::first_from(
                    self.clusters@,
                    cluster_is(id),
                    i as int,
                ),
            decreases self.clusters.len() - i,
        {
            if self.clusters[i].id == id {
                return Some(&self.clusters[i]);
            }
            i = i + 1;
        }
        None
    }
}

/// A node: its endpoints.
#[derive(Debug, Clone, Copy)]
pub struct Node<'a> {
    /// The endpoints.
    pub endpoints: &'a [Endpoint<'a>],
}

impl<'a> Node<'a> {
    /// A node of endpoints.
    pub fn new(endpoints: &'a [Endpoint<'a>]) -> (n: Self)
        ensures
            n.endpoints == endpoints,
    {
        Node { endpoints }
    }

    /// An endpoint of it.
    pub open spec fn at(self, id: EndpointId) -> Option<Endpoint<'a>> {
        match bounded::first(self.endpoints@, endpoint_is(id)) {
            Some(i) => Some(self.endpoints@[i]),
            None => None,
        }
    }

    /// An endpoint of it.
    pub fn endpoint(&self, id: EndpointId) -> (e: Option<&'a Endpoint<'a>>)
        ensures
            match e {
                Some(e) => self.at(id) == Some(*e),
                None => self.at(id) is None,
            },
    {
        let mut i: usize = 0;
        while i < self.endpoints.len()
            invariant
                i <= self.endpoints@.len(),
                bounded::first(self.endpoints@, endpoint_is(id)) == bounded::first_from(
                    self.endpoints@,
                    endpoint_is(id),
                    i as int,
                ),
            decreases self.endpoints.len() - i,
        {
            if self.endpoints[i].id == id {
                return Some(&self.endpoints[i]);
            }
            i = i + 1;
        }
        None
    }
}

/// What a privilege allows beyond what another asks for: each allows itself and View; Administer allows all; Manage allows
/// Operate; and the proxy's view is allowed by itself and Administer alone.
pub proof fn law_privileges_are_ordered(held: Privilege, needed: Privilege)
    ensures
        held.covers(held),
        held.covers(Privilege::View),
        Privilege::Administer.covers(needed),
        held.covers(Privilege::Administer) == held is Administer,
        held.covers(Privilege::Manage) == (held is Administer || held is Manage),
        held.covers(Privilege::Operate) == (held is Administer || held is Manage || held is Operate),
        held.covers(Privilege::ProxyView) == (held is Administer || held is ProxyView),
{
}

/// Which identifiers can be a cluster's and a device type's: a standard one, or one under a manufacturer's prefix.
pub proof fn law_identifiers_are_standard_or_a_manufacturers(id: u32)
    ensures
        cluster_valid(id) == (id <= 0x7FFF || (0x1_0000 <= id < 0xFFF5_0000 && 0xFC00 <= id % 0x1_0000 <= 0xFFFE)),
        device_type_valid(id) == (id < 0xFFF5_0000 && id % 0x1_0000 <= 0xBFFF),
{
}

/// A node has the endpoint of a number exactly where one of its endpoints has it, and then it is the first such; and so it is
/// with an endpoint's clusters, and with a cluster's attributes and commands.
pub proof fn law_what_is_looked_up_is_found<'a>(n: Node<'a>, e: Endpoint<'a>, c: ClusterModel, id: u32, endpoint: EndpointId)
    ensures
        match n.at(endpoint) {
            Some(found) => found.id == endpoint && exists|i: int|
                0 <= i < n.endpoints@.len() && #[trigger] n.endpoints@[i] == found && forall|j: int|
                    0 <= j < i ==> (#[trigger] n.endpoints@[j]).id != endpoint,
            None => forall|i: int| 0 <= i < n.endpoints@.len() ==> (#[trigger] n.endpoints@[i]).id != endpoint,
        },
        match e.serves(id) {
            Some(i) => 0 <= i < e.clusters@.len() && e.clusters@[i].id == id && forall|j: int|
                0 <= j < i ==> (#[trigger] e.clusters@[j]).id != id,
            None => forall|i: int| 0 <= i < e.clusters@.len() ==> (#[trigger] e.clusters@[i]).id != id,
        },
        match c.attribute(id) {
            Some(found) => found.id == id && c.attributes.contains(found),
            None => forall|i: int| 0 <= i < c.attributes.len() ==> (#[trigger] c.attributes[i]).id != id,
        },
        match c.command(id) {
            Some(found) => found.id == id && c.accepted_commands.contains(found),
            None => forall|i: int| 0 <= i < c.accepted_commands.len() ==> (#[trigger] c.accepted_commands[i]).id != id,
        },
{
    bounded::lemma_first(n.endpoints@, endpoint_is(endpoint));
    bounded::lemma_first(e.clusters@, cluster_is(id));
    bounded::lemma_first(c.attributes, attribute_is(id));
    bounded::lemma_first(c.accepted_commands, command_is(id));
    match bounded::first(n.endpoints@, endpoint_is(endpoint)) {
        Some(i) => {
            assert(endpoint_is(endpoint)(n.endpoints@[i]));
            assert forall|j: int| 0 <= j < i implies (#[trigger] n.endpoints@[j]).id != endpoint by {
                assert(!endpoint_is(endpoint)(n.endpoints@[j]));
            }
        },
        None => {
            assert forall|j: int| 0 <= j < n.endpoints@.len() implies (#[trigger] n.endpoints@[j]).id != endpoint by {
                assert(!endpoint_is(endpoint)(n.endpoints@[j]));
            }
        },
    }
    assert forall|j: int| 0 <= j < e.clusters@.len() implies cluster_is(id)(#[trigger] e.clusters@[j]) == (e.clusters@[j].id == id) by {}
    assert forall|j: int| 0 <= j < c.attributes.len() implies attribute_is(id)(#[trigger] c.attributes[j]) == (c.attributes[j].id == id) by {}
    assert forall|j: int| 0 <= j < c.accepted_commands.len() implies command_is(id)(#[trigger] c.accepted_commands[j]) == (
    c.accepted_commands[j].id == id) by {}
    if let Some(i) = bounded::first(e.clusters@, cluster_is(id)) {
        assert(e.clusters@[i].id == id);
    }
    if let Some(i) = bounded::first(c.attributes, attribute_is(id)) {
        assert(c.attributes[i].id == id);
    }
    if let Some(i) = bounded::first(c.accepted_commands, command_is(id)) {
        assert(c.accepted_commands[i].id == id);
    }
}

} // verus!
