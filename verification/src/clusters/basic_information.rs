//! Basic Information, cluster `0x0028`: who a node is.
//!
//! Almost all of it is decided when the product is built. The list of attributes is worked out
//! from the same record that they are read from, so that the two cannot drift apart.

use vstd::prelude::*;
use vstd::utf8;

use crate::bounded::Text;
use crate::clusters::dispatch::Cluster;
use crate::dm;
use crate::dm::{
    Access, AttributeDescriptor, AttributeQualities, ClusterDescriptor, ClusterModel, EventDescriptor, EventPriority, Privilege,
};
use crate::im;
use crate::im::{
    AttributeId, ClusterHandler, ClusterId, EventId, InteractionContext, InvokeAnswer, Lifecycle, ReadAnswer, Reply, Resolved,
    ResolvedCommand, Status, StatusIb, WriteOp,
};
use crate::msg::VendorId;
use crate::tlv;
use crate::tlv::{Numbered, Tag, Value};

verus! {

/// The cluster.
pub const ID: ClusterId = 0x0028;

/// Its revision.
pub const REVISION: u16 = 6;

/// The version of the protocol.
pub const SPECIFICATION_VERSION: u32 = 0x0106_0000;

/// The revision of the data model.
pub const DATA_MODEL_REVISION: u16 = 20;

/// `DataModelRevision`.
pub const DATA_MODEL_REVISION_ID: AttributeId = 0x0000;

/// `VendorName`.
pub const VENDOR_NAME: AttributeId = 0x0001;

/// `VendorID`.
pub const VENDOR_ID: AttributeId = 0x0002;

/// `ProductName`.
pub const PRODUCT_NAME: AttributeId = 0x0003;

/// `ProductID`.
pub const PRODUCT_ID: AttributeId = 0x0004;

/// `NodeLabel`.
pub const NODE_LABEL: AttributeId = 0x0005;

/// `Location`.
pub const LOCATION: AttributeId = 0x0006;

/// `HardwareVersion`.
pub const HARDWARE_VERSION: AttributeId = 0x0007;

/// `HardwareVersionString`.
pub const HARDWARE_VERSION_STRING: AttributeId = 0x0008;

/// `SoftwareVersion`.
pub const SOFTWARE_VERSION: AttributeId = 0x0009;

/// `SoftwareVersionString`.
pub const SOFTWARE_VERSION_STRING: AttributeId = 0x000A;

/// `ManufacturingDate`.
pub const MANUFACTURING_DATE: AttributeId = 0x000B;

/// `PartNumber`.
pub const PART_NUMBER: AttributeId = 0x000C;

/// `ProductURL`.
pub const PRODUCT_URL: AttributeId = 0x000D;

/// `ProductLabel`.
pub const PRODUCT_LABEL: AttributeId = 0x000E;

/// `SerialNumber`.
pub const SERIAL_NUMBER: AttributeId = 0x000F;

/// `LocalConfigDisabled`.
pub const LOCAL_CONFIG_DISABLED: AttributeId = 0x0010;

/// `Reachable`.
pub const REACHABLE: AttributeId = 0x0011;

/// `UniqueID`.
pub const UNIQUE_ID: AttributeId = 0x0012;

/// `CapabilityMinima`.
pub const CAPABILITY_MINIMA: AttributeId = 0x0013;

/// `ProductAppearance`.
pub const PRODUCT_APPEARANCE: AttributeId = 0x0014;

/// `SpecificationVersion`.
pub const SPECIFICATION_VERSION_ID: AttributeId = 0x0015;

/// `MaxPathsPerInvoke`.
pub const MAX_PATHS_PER_INVOKE: AttributeId = 0x0016;

/// `ConfigurationVersion`.
pub const CONFIGURATION_VERSION: AttributeId = 0x0018;

/// `StartUp`.
pub const START_UP: EventId = 0x00;

/// `ShutDown`.
pub const SHUT_DOWN: EventId = 0x01;

/// `Leave`.
pub const LEAVE: EventId = 0x02;

/// `ReachableChanged`.
pub const REACHABLE_CHANGED: EventId = 0x03;

/// How many attributes there can be.
pub const MAX_ATTRIBUTES: usize = 24;

/// The most octets that a name may have.
pub const NODE_LABEL_MAX: usize = 32;

/// How a product's surface looks.
#[derive(Debug, Clone, Copy, PartialEq, Eq, Structural)]
pub enum ProductFinish {
    /// In another way.
    Other,
    /// Matte.
    Matte,
    /// Satin.
    Satin,
    /// Polished.
    Polished,
    /// Rugged.
    Rugged,
    /// Fabric.
    Fabric,
}

impl Numbered for ProductFinish {
    open spec fn number(self) -> u64 {
        match self {
            ProductFinish::Other => 0,
            ProductFinish::Matte => 1,
            ProductFinish::Satin => 2,
            ProductFinish::Polished => 3,
            ProductFinish::Rugged => 4,
            ProductFinish::Fabric => 5,
        }
    }

    fn as_number(self) -> (v: u64) {
        match self {
            ProductFinish::Other => 0,
            ProductFinish::Matte => 1,
            ProductFinish::Satin => 2,
            ProductFinish::Polished => 3,
            ProductFinish::Rugged => 4,
            ProductFinish::Fabric => 5,
        }
    }
}

/// How a product looks.
#[derive(Debug, Clone, Copy, PartialEq, Eq, Structural)]
pub struct ProductAppearance {
    /// Its surface.
    pub finish: ProductFinish,
    /// Its colour, where it has one.
    pub primary_color: Option<u8>,
}

/// What a node guarantees at least.
#[derive(Debug, Clone, Copy, PartialEq, Eq, Structural)]
pub struct CapabilityMinima {
    /// Sessions of one fabric.
    pub case_sessions_per_fabric: u16,
    /// Subscriptions of one fabric.
    pub subscriptions_per_fabric: u16,
    /// Commands at once.
    pub simultaneous_invocations: Option<u16>,
    /// Writes at once.
    pub simultaneous_writes: Option<u16>,
    /// Paths in one read.
    pub read_paths: Option<u16>,
    /// Paths in one subscription.
    pub subscribe_paths: Option<u16>,
}

/// A number, but no more than 10000.
pub open spec fn capped(n: usize) -> u16 {
    if n > 10_000 {
        10_000
    } else {
        n as u16
    }
}

fn saturate(n: usize) -> (c: u16)
    ensures
        c == capped(n),
{
    if n > 10_000 {
        10_000
    } else {
        n as u16
    }
}

/// What a node guarantees where it says no more.
pub open spec fn floors() -> CapabilityMinima {
    CapabilityMinima {
        case_sessions_per_fabric: 3,
        subscriptions_per_fabric: 3,
        simultaneous_invocations: Some(1),
        simultaneous_writes: Some(1),
        read_paths: Some(9),
        subscribe_paths: Some(3),
    }
}

impl CapabilityMinima {
    /// What a node guarantees by the size of its tables: sessions and subscriptions of one fabric,
    /// and paths in one read and in one subscription.
    pub fn from_tables(sessions: usize, subscriptions: usize, read_paths: usize, subscribe_paths: usize) -> (m: Self)
        ensures
            m == (CapabilityMinima {
                case_sessions_per_fabric: capped(sessions),
                subscriptions_per_fabric: capped(subscriptions),
                simultaneous_invocations: Some(1),
                simultaneous_writes: Some(1),
                read_paths: Some(capped(read_paths)),
                subscribe_paths: Some(capped(subscribe_paths)),
            }),
    {
        CapabilityMinima {
            case_sessions_per_fabric: saturate(sessions),
            subscriptions_per_fabric: saturate(subscriptions),
            simultaneous_invocations: Some(1),
            simultaneous_writes: Some(1),
            read_paths: Some(saturate(read_paths)),
            subscribe_paths: Some(saturate(subscribe_paths)),
        }
    }
}

impl Default for CapabilityMinima {
    fn default() -> (m: Self)
        ensures
            m == floors(),
    {
        CapabilityMinima {
            case_sessions_per_fabric: 3,
            subscriptions_per_fabric: 3,
            simultaneous_invocations: Some(1),
            simultaneous_writes: Some(1),
            read_paths: Some(9),
            subscribe_paths: Some(3),
        }
    }
}

/// A number, widened.
pub open spec fn wide(v: Option<u16>) -> Option<u64> {
    match v {
        Some(v) => Some(v as u64),
        None => None,
    }
}

fn widen(v: Option<u16>) -> (w: Option<u64>)
    ensures
        w == wide(v),
{
    match v {
        Some(v) => Some(v as u64),
        None => None,
    }
}

/// What a node guarantees, on the wire; what it does not say is not there.
pub open spec fn minima_bytes(tag: Tag, m: CapabilityMinima) -> Seq<u8> {
    tlv::structure_bytes(
        tag,
        tlv::unsigned_bytes(Tag::Context(0), m.case_sessions_per_fabric as u64) + tlv::unsigned_bytes(
            Tag::Context(1),
            m.subscriptions_per_fabric as u64,
        ) + tlv::optional_bytes(Tag::Context(2), wide(m.simultaneous_invocations)) + tlv::optional_bytes(
            Tag::Context(3),
            wide(m.simultaneous_writes),
        ) + tlv::optional_bytes(Tag::Context(4), wide(m.read_paths)) + tlv::optional_bytes(
            Tag::Context(5),
            wide(m.subscribe_paths),
        ),
    )
}

fn write_capability_minima(tag: Tag, m: &CapabilityMinima) -> (out: Vec<u8>)
    ensures
        out@ == minima_bytes(tag, *m),
{
    let mut body: Vec<u8> = Vec::new();
    tlv::put_unsigned(&mut body, Tag::Context(0), m.case_sessions_per_fabric as u64);
    tlv::put_unsigned(&mut body, Tag::Context(1), m.subscriptions_per_fabric as u64);
    tlv::put_optional(&mut body, Tag::Context(2), widen(m.simultaneous_invocations));
    tlv::put_optional(&mut body, Tag::Context(3), widen(m.simultaneous_writes));
    tlv::put_optional(&mut body, Tag::Context(4), widen(m.read_paths));
    tlv::put_optional(&mut body, Tag::Context(5), widen(m.subscribe_paths));
    let mut out: Vec<u8> = Vec::new();
    tlv::put_structure(&mut out, tag, &body);
    proof {
        assert(body@ =~= tlv::unsigned_bytes(Tag::Context(0), m.case_sessions_per_fabric as u64) + tlv::unsigned_bytes(
            Tag::Context(1),
            m.subscriptions_per_fabric as u64,
        ) + tlv::optional_bytes(Tag::Context(2), wide(m.simultaneous_invocations)) + tlv::optional_bytes(
            Tag::Context(3),
            wide(m.simultaneous_writes),
        ) + tlv::optional_bytes(Tag::Context(4), wide(m.read_paths)) + tlv::optional_bytes(
            Tag::Context(5),
            wide(m.subscribe_paths),
        ));
        assert(out@ =~= minima_bytes(tag, *m));
    }
    out
}

/// What is decided when a product is built.
#[derive(Debug, Clone, Copy)]
pub struct Product<'a> {
    /// `VendorName`.
    pub vendor_name: &'a str,
    /// `VendorID`.
    pub vendor_id: VendorId,
    /// `ProductName`.
    pub product_name: &'a str,
    /// `ProductID`.
    pub product_id: u16,
    /// `HardwareVersion`.
    pub hardware_version: u16,
    /// `HardwareVersionString`.
    pub hardware_version_string: &'a str,
    /// `SoftwareVersion`.
    pub software_version: u32,
    /// `SoftwareVersionString`.
    pub software_version_string: &'a str,
    /// `UniqueID`.
    pub unique_id: &'a str,
    /// `CapabilityMinima`.
    pub capability_minima: CapabilityMinima,
    /// `MaxPathsPerInvoke`.
    pub max_paths_per_invoke: u16,
    /// `ManufacturingDate`.
    pub manufacturing_date: Option<&'a str>,
    /// `PartNumber`.
    pub part_number: Option<&'a str>,
    /// `ProductURL`.
    pub product_url: Option<&'a str>,
    /// `ProductLabel`.
    pub product_label: Option<&'a str>,
    /// `SerialNumber`.
    pub serial_number: Option<&'a str>,
    /// `ProductAppearance`.
    pub appearance: Option<ProductAppearance>,
    /// `ConfigurationVersion`.
    pub configuration_version: u32,
}

impl<'a> Product<'a> {
    /// A product that says no more than it has to.
    pub fn new(
        vendor_name: &'a str,
        vendor_id: VendorId,
        product_name: &'a str,
        product_id: u16,
        unique_id: &'a str,
    ) -> (p: Self)
        ensures
            p.vendor_name == vendor_name,
            p.vendor_id == vendor_id,
            p.product_name == product_name,
            p.product_id == product_id,
            p.unique_id == unique_id,
            p.hardware_version == 0,
            p.hardware_version_string@ == "0"@,
            p.software_version == 0,
            p.software_version_string@ == "0"@,
            p.capability_minima == floors(),
            p.max_paths_per_invoke == 1,
            p.manufacturing_date is None,
            p.part_number is None,
            p.product_url is None,
            p.product_label is None,
            p.serial_number is None,
            p.appearance is None,
            p.configuration_version == 1,
    {
        Product {
            vendor_name,
            vendor_id,
            product_name,
            product_id,
            hardware_version: 0,
            hardware_version_string: "0",
            software_version: 0,
            software_version_string: "0",
            unique_id,
            capability_minima: CapabilityMinima::default(),
            max_paths_per_invoke: 1,
            manufacturing_date: None,
            part_number: None,
            product_url: None,
            product_label: None,
            serial_number: None,
            appearance: None,
            configuration_version: 1,
        }
    }

    /// The same with its hardware's version.
    pub fn with_hardware(self, version: u16, string: &'a str) -> (p: Self)
        ensures
            p == (Product { hardware_version: version, hardware_version_string: string, ..self }),
    {
        Product { hardware_version: version, hardware_version_string: string, ..self }
    }

    /// The same with its software's version.
    pub fn with_software(self, version: u32, string: &'a str) -> (p: Self)
        ensures
            p == (Product { software_version: version, software_version_string: string, ..self }),
    {
        Product { software_version: version, software_version_string: string, ..self }
    }

    /// The same with a serial number.
    pub fn with_serial_number(self, serial_number: &'a str) -> (p: Self)
        ensures
            p == (Product { serial_number: Some(serial_number), ..self }),
    {
        Product { serial_number: Some(serial_number), ..self }
    }

    /// The same with what it guarantees.
    pub fn with_capability_minima(self, minima: CapabilityMinima) -> (p: Self)
        ensures
            p == (Product { capability_minima: minima, ..self }),
    {
        Product { capability_minima: minima, ..self }
    }

    /// The same with how many paths one message may invoke.
    pub fn with_max_paths_per_invoke(self, max: u16) -> (p: Self)
        ensures
            p == (Product { max_paths_per_invoke: max, ..self }),
    {
        Product { max_paths_per_invoke: max, ..self }
    }
}

/// The two octets of a region's code, where a text is one: exactly two, and both ASCII.
pub open spec fn region(code: Seq<char>) -> Option<(u8, u8)> {
    let b = utf8::encode_utf8(code);
    if b.len() == 2 && b[0] < 0x80 && b[1] < 0x80 {
        Some((b[0], b[1]))
    } else {
        None
    }
}

fn read_region(code: &str) -> (r: Option<(u8, u8)>)
    ensures
        r == region(code@),
{
    let bytes: &[u8] = code.as_bytes();
    if bytes.len() == 2 && bytes[0] < 0x80 && bytes[1] < 0x80 {
        Some((bytes[0], bytes[1]))
    } else {
        None
    }
}

/// The region that a node is in.
#[derive(Debug, Clone, Copy, PartialEq, Eq)]
pub struct Location {
    /// Its code.
    pub code: (u8, u8),
}

impl Default for Location {
    /// No region in particular.
    fn default() -> (l: Self)
        ensures
            l.code == (0x58u8, 0x58u8),
    {
        Location { code: (0x58, 0x58) }
    }
}

impl Location {
    /// No region in particular.
    pub fn region_agnostic() -> (l: Self)
        ensures
            l.code == (0x58u8, 0x58u8),
    {
        Location { code: (0x58, 0x58) }
    }

    /// A region, where a text is one.
    pub fn new(code: &str) -> (l: Option<Self>)
        ensures
            match l {
                Some(l) => region(code@) == Some(l.code),
                None => region(code@) is None,
            },
    {
        match read_region(code) {
            Some(code) => Some(Location { code }),
            None => None,
        }
    }

    /// Its code.
    pub fn get(&self) -> (code: [u8; 2])
        ensures
            code@ == seq![self.code.0, self.code.1],
    {
        [self.code.0, self.code.1]
    }

    /// Goes over to a region; a text that is none changes nothing.
    pub fn set(&mut self, code: &str) -> (r: Result<(), Status>)
        ensures
            match region(code@) {
                Some(c) => r == Ok::<(), Status>(()) && final(self).code == c,
                None => r == Err::<(), Status>(Status::ConstraintError) && *final(self) == *old(self),
            },
    {
        match read_region(code) {
            Some(code) => {
                self.code = code;
                Ok(())
            },
            None => Err(Status::ConstraintError),
        }
    }
}

/// An attribute that never changes.
pub open spec fn fixed_attribute(id: AttributeId) -> AttributeDescriptor {
    dm::readable(id, dm::fixed_value())
}

fn fixed(id: AttributeId) -> (d: AttributeDescriptor)
    ensures
        d == fixed_attribute(id),
{
    AttributeDescriptor::read_only(id).with_qualities(AttributeQualities::fixed())
}

/// Every attribute, and whether a node has it.
pub open spec fn table(p: Product, local_config_disabled: bool, reachable: bool) -> Seq<(AttributeDescriptor, bool)> {
    seq![
        (fixed_attribute(DATA_MODEL_REVISION_ID), true),
        (fixed_attribute(VENDOR_NAME), true),
        (fixed_attribute(VENDOR_ID), true),
        (fixed_attribute(PRODUCT_NAME), true),
        (fixed_attribute(PRODUCT_ID), true),
        (dm::writable(NODE_LABEL, Privilege::Manage, dm::kept_value()), true),
        (dm::writable(LOCATION, Privilege::Administer, dm::kept_value()), true),
        (fixed_attribute(HARDWARE_VERSION), true),
        (fixed_attribute(HARDWARE_VERSION_STRING), true),
        (fixed_attribute(SOFTWARE_VERSION), true),
        (fixed_attribute(SOFTWARE_VERSION_STRING), true),
        (fixed_attribute(MANUFACTURING_DATE), p.manufacturing_date is Some),
        (fixed_attribute(PART_NUMBER), p.part_number is Some),
        (fixed_attribute(PRODUCT_URL), p.product_url is Some),
        (fixed_attribute(PRODUCT_LABEL), p.product_label is Some),
        (fixed_attribute(SERIAL_NUMBER), p.serial_number is Some),
        (dm::writable(LOCAL_CONFIG_DISABLED, Privilege::Manage, dm::kept_value()), local_config_disabled),
        (dm::readable(REACHABLE, dm::plain_value()), reachable),
        (fixed_attribute(UNIQUE_ID), true),
        (fixed_attribute(CAPABILITY_MINIMA), true),
        (fixed_attribute(PRODUCT_APPEARANCE), p.appearance is Some),
        (fixed_attribute(SPECIFICATION_VERSION_ID), true),
        (fixed_attribute(MAX_PATHS_PER_INVOKE), true),
        (dm::readable(CONFIGURATION_VERSION, dm::kept_value()), true),
    ]
}

/// The attributes that are there, among the first `n`.
pub open spec fn kept(t: Seq<(AttributeDescriptor, bool)>, n: int) -> Seq<AttributeDescriptor>
    decreases n,
{
    if n <= 0 {
        Seq::empty()
    } else if t[n - 1].1 {
        kept(t, n - 1).push(t[n - 1].0)
    } else {
        kept(t, n - 1)
    }
}

/// The attributes of a node.
pub open spec fn listed(p: Product, local_config_disabled: bool, reachable: bool) -> Seq<AttributeDescriptor> {
    kept(table(p, local_config_disabled, reachable), MAX_ATTRIBUTES as int)
}

/// How the cluster describes itself, given its attributes.
pub open spec fn description(attributes: Seq<AttributeDescriptor>) -> ClusterModel {
    ClusterModel {
        id: ID,
        revision: REVISION,
        feature_map: 0,
        attributes,
        accepted_commands: Seq::empty(),
        generated_commands: Seq::empty(),
        events: seq![
            EventDescriptor { id: START_UP, priority: EventPriority::Critical },
            EventDescriptor { id: SHUT_DOWN, priority: EventPriority::Critical },
            EventDescriptor { id: LEAVE, priority: EventPriority::Info },
        ],
    }
}

/// The attributes of a node.
#[derive(Debug)]
pub struct Attributes {
    entries: Vec<AttributeDescriptor>,
}

impl View for Attributes {
    type V = Seq<AttributeDescriptor>;

    closed spec fn view(&self) -> Seq<AttributeDescriptor> {
        self.entries@
    }
}

impl Attributes {
    /// The attributes of a node, in the order of their ids.
    pub fn new(p: &Product, local_config_disabled: bool, reachable: bool) -> (a: Self)
        ensures
            a@ == listed(*p, local_config_disabled, reachable),
    {
        let kept_for: AttributeQualities = AttributeQualities::non_volatile();
        let manage: Access = Access::read_write_with(Privilege::View, Privilege::Manage);
        let administer: Access = Access::read_write_with(Privilege::View, Privilege::Administer);
        let all: Vec<(AttributeDescriptor, bool)> = vec![
            (fixed(DATA_MODEL_REVISION_ID), true),
            (fixed(VENDOR_NAME), true),
            (fixed(VENDOR_ID), true),
            (fixed(PRODUCT_NAME), true),
            (fixed(PRODUCT_ID), true),
            (AttributeDescriptor::read_write(NODE_LABEL).with_access(manage).with_qualities(kept_for), true),
            (AttributeDescriptor::read_write(LOCATION).with_access(administer).with_qualities(kept_for), true),
            (fixed(HARDWARE_VERSION), true),
            (fixed(HARDWARE_VERSION_STRING), true),
            (fixed(SOFTWARE_VERSION), true),
            (fixed(SOFTWARE_VERSION_STRING), true),
            (fixed(MANUFACTURING_DATE), p.manufacturing_date.is_some()),
            (fixed(PART_NUMBER), p.part_number.is_some()),
            (fixed(PRODUCT_URL), p.product_url.is_some()),
            (fixed(PRODUCT_LABEL), p.product_label.is_some()),
            (fixed(SERIAL_NUMBER), p.serial_number.is_some()),
            (
                AttributeDescriptor::read_write(LOCAL_CONFIG_DISABLED).with_access(manage).with_qualities(kept_for),
                local_config_disabled,
            ),
            (AttributeDescriptor::read_only(REACHABLE), reachable),
            (fixed(UNIQUE_ID), true),
            (fixed(CAPABILITY_MINIMA), true),
            (fixed(PRODUCT_APPEARANCE), p.appearance.is_some()),
            (fixed(SPECIFICATION_VERSION_ID), true),
            (fixed(MAX_PATHS_PER_INVOKE), true),
            (AttributeDescriptor::read_only(CONFIGURATION_VERSION).with_qualities(kept_for), true),
        ];
        proof {
            assert(all@ =~= table(*p, local_config_disabled, reachable));
        }
        let mut entries: Vec<AttributeDescriptor> = Vec::new();
        let mut i: usize = 0;
        while i < all.len()
            invariant
                i <= all@.len() == MAX_ATTRIBUTES,
                entries@ == kept(all@, i as int),
            decreases all.len() - i,
        {
            if all[i].1 {
                entries.push(all[i].0);
            }
            i = i + 1;
        }
        Attributes { entries }
    }

    /// The attributes.
    pub fn as_slice(&self) -> (a: &[AttributeDescriptor])
        ensures
            a@ == self@,
    {
        self.entries.as_slice()
    }

    /// How the cluster describes itself.
    pub fn cluster(&self) -> (d: ClusterDescriptor)
        ensures
            d@ == description(self@),
    {
        let mut attributes: Vec<AttributeDescriptor> = Vec::new();
        let mut i: usize = 0;
        while i < self.entries.len()
            invariant
                i <= self.entries@.len(),
                attributes@ == self.entries@.take(i as int),
            decreases self.entries.len() - i,
        {
            attributes.push(self.entries[i]);
            i = i + 1;
            proof {
                assert(attributes@ =~= self.entries@.take(i as int));
            }
        }
        let d: ClusterDescriptor = ClusterDescriptor {
            id: ID,
            revision: REVISION,
            feature_map: 0,
            attributes,
            accepted_commands: Vec::new(),
            generated_commands: Vec::new(),
            events: vec![
                EventDescriptor::new(START_UP).with_priority(EventPriority::Critical),
                EventDescriptor::new(SHUT_DOWN).with_priority(EventPriority::Critical),
                EventDescriptor::new(LEAVE),
            ],
        };
        proof {
            assert(d@.attributes =~= self@);
            assert(d@.events =~= description(self@).events);
        }
        d
    }
}

/// A text that may not be there.
pub open spec fn optional_answer(tag: Tag, s: Option<&str>) -> ReadAnswer {
    match s {
        Some(s) => Ok(tlv::text_bytes(tag, s@)),
        None => Err(Status::UnsupportedAttribute),
    }
}

/// A truth value that may not be there.
pub open spec fn truth_answer(tag: Tag, v: Option<bool>) -> ReadAnswer {
    match v {
        Some(v) => Ok(tlv::bool_bytes(tag, v)),
        None => Err(Status::UnsupportedAttribute),
    }
}

/// How a product looks, on the wire.
pub open spec fn appearance_answer(tag: Tag, a: Option<ProductAppearance>) -> ReadAnswer {
    match a {
        Some(a) => Ok(
            tlv::structure_bytes(
                tag,
                tlv::unsigned_bytes(Tag::Context(0), a.finish.number()) + tlv::nullable_bytes(
                    Tag::Context(1),
                    color_of(a.primary_color),
                ),
            ),
        ),
        None => Err(Status::UnsupportedAttribute),
    }
}

/// A colour's number.
pub open spec fn color_of(v: Option<u8>) -> Option<u64> {
    match v {
        Some(v) => Some(v as u64),
        None => None,
    }
}

/// What can be changed.
pub struct Mutable {
    /// `NodeLabel`.
    pub node_label: Seq<char>,
    /// `Location`.
    pub location: (u8, u8),
    /// `LocalConfigDisabled`, where it is there.
    pub local_config_disabled: Option<bool>,
    /// `Reachable`, where it is there.
    pub reachable: Option<bool>,
}

/// What an attribute is answered with.
pub open spec fn attribute_answer(p: Product, m: Mutable, id: AttributeId, tag: Tag) -> ReadAnswer {
    if id == DATA_MODEL_REVISION_ID {
        Ok(tlv::unsigned_bytes(tag, DATA_MODEL_REVISION as u64))
    } else if id == VENDOR_NAME {
        Ok(tlv::text_bytes(tag, p.vendor_name@))
    } else if id == VENDOR_ID {
        Ok(tlv::unsigned_bytes(tag, p.vendor_id.0 as u64))
    } else if id == PRODUCT_NAME {
        Ok(tlv::text_bytes(tag, p.product_name@))
    } else if id == PRODUCT_ID {
        Ok(tlv::unsigned_bytes(tag, p.product_id as u64))
    } else if id == NODE_LABEL {
        Ok(tlv::text_bytes(tag, m.node_label))
    } else if id == LOCATION {
        Ok(tlv::utf8_bytes(tag, seq![m.location.0, m.location.1]))
    } else if id == HARDWARE_VERSION {
        Ok(tlv::unsigned_bytes(tag, p.hardware_version as u64))
    } else if id == HARDWARE_VERSION_STRING {
        Ok(tlv::text_bytes(tag, p.hardware_version_string@))
    } else if id == SOFTWARE_VERSION {
        Ok(tlv::unsigned_bytes(tag, p.software_version as u64))
    } else if id == SOFTWARE_VERSION_STRING {
        Ok(tlv::text_bytes(tag, p.software_version_string@))
    } else if id == MANUFACTURING_DATE {
        optional_answer(tag, p.manufacturing_date)
    } else if id == PART_NUMBER {
        optional_answer(tag, p.part_number)
    } else if id == PRODUCT_URL {
        optional_answer(tag, p.product_url)
    } else if id == PRODUCT_LABEL {
        optional_answer(tag, p.product_label)
    } else if id == SERIAL_NUMBER {
        optional_answer(tag, p.serial_number)
    } else if id == LOCAL_CONFIG_DISABLED {
        truth_answer(tag, m.local_config_disabled)
    } else if id == REACHABLE {
        truth_answer(tag, m.reachable)
    } else if id == UNIQUE_ID {
        Ok(tlv::text_bytes(tag, p.unique_id@))
    } else if id == CAPABILITY_MINIMA {
        Ok(minima_bytes(tag, p.capability_minima))
    } else if id == PRODUCT_APPEARANCE {
        appearance_answer(tag, p.appearance)
    } else if id == SPECIFICATION_VERSION_ID {
        Ok(tlv::unsigned_bytes(tag, SPECIFICATION_VERSION as u64))
    } else if id == MAX_PATHS_PER_INVOKE {
        Ok(tlv::unsigned_bytes(tag, p.max_paths_per_invoke as u64))
    } else if id == CONFIGURATION_VERSION {
        Ok(tlv::unsigned_bytes(tag, p.configuration_version as u64))
    } else {
        Err(Status::UnsupportedAttribute)
    }
}

/// The text that a write gives, or why it is refused.
pub open spec fn text_written(b: Seq<u8>) -> Result<Seq<char>, Status> {
    match tlv::element_at(b, 0) {
        Some((e, _)) => if e.value is Utf8 { Ok(tlv::text_in(b, e)) } else { Err(Status::InvalidDataType) },
        None => Err(Status::InvalidDataType),
    }
}

/// The truth value that a write gives, or why it is refused.
pub open spec fn truth_written(b: Seq<u8>) -> Result<bool, Status> {
    match tlv::element_at(b, 0) {
        Some((e, _)) => match e.value {
            Value::Bool(v) => Ok(v),
            _ => Err(Status::InvalidDataType),
        },
        None => Err(Status::InvalidDataType),
    }
}

/// What a write comes to.
pub open spec fn written(m: Mutable, id: AttributeId, b: Seq<u8>) -> (Mutable, Option<Status>) {
    if id == NODE_LABEL {
        match text_written(b) {
            Err(status) => (m, Some(status)),
            Ok(s) => if utf8::encode_utf8(s).len() > NODE_LABEL_MAX {
                (m, Some(Status::ConstraintError))
            } else {
                (Mutable { node_label: s, ..m }, None)
            },
        }
    } else if id == LOCATION {
        match text_written(b) {
            Err(status) => (m, Some(status)),
            Ok(s) => match region(s) {
                None => (m, Some(Status::ConstraintError)),
                Some(location) => (Mutable { location, ..m }, None),
            },
        }
    } else if id == LOCAL_CONFIG_DISABLED {
        if m.local_config_disabled is None {
            (m, Some(Status::UnsupportedAttribute))
        } else {
            match truth_written(b) {
                Err(status) => (m, Some(status)),
                Ok(v) => (Mutable { local_config_disabled: Some(v), ..m }, None),
            }
        }
    } else {
        (m, Some(Status::UnsupportedWrite))
    }
}

fn read_utf8(data: &[u8]) -> (r: Result<&str, Status>)
    ensures
        match r {
            Ok(s) => text_written(data@) == Ok::<Seq<char>, Status>(s@),
            Err(status) => text_written(data@) == Err::<Seq<char>, Status>(status),
        },
{
    match tlv::read_element(data, 0) {
        None => Err(Status::InvalidDataType),
        Some((e, _)) => match tlv::text_at(data, &e) {
            None => Err(Status::InvalidDataType),
            Some(s) => Ok(s),
        },
    }
}

fn read_bool(data: &[u8]) -> (r: Result<bool, Status>)
    ensures
        r == truth_written(data@),
{
    match tlv::read_element(data, 0) {
        None => Err(Status::InvalidDataType),
        Some((e, _)) => match e.value {
            Value::Bool(v) => Ok(v),
            _ => Err(Status::InvalidDataType),
        },
    }
}

fn encode_text(tag: Tag, s: &str) -> (a: Result<Vec<u8>, Status>)
    ensures
        im::read_answer(a) == Ok::<Seq<u8>, Status>(tlv::text_bytes(tag, s@)),
{
    let mut out: Vec<u8> = Vec::new();
    tlv::put_text(&mut out, tag, s);
    proof {
        assert(out@ =~= tlv::text_bytes(tag, s@));
    }
    Ok(out)
}

fn encode_number(tag: Tag, v: u64) -> (a: Result<Vec<u8>, Status>)
    ensures
        im::read_answer(a) == Ok::<Seq<u8>, Status>(tlv::unsigned_bytes(tag, v)),
{
    let mut out: Vec<u8> = Vec::new();
    tlv::put_unsigned(&mut out, tag, v);
    proof {
        assert(out@ =~= tlv::unsigned_bytes(tag, v));
    }
    Ok(out)
}

fn optional_string(tag: Tag, s: Option<&str>) -> (a: Result<Vec<u8>, Status>)
    ensures
        im::read_answer(a) == optional_answer(tag, s),
{
    match s {
        None => Err(Status::UnsupportedAttribute),
        Some(s) => encode_text(tag, s),
    }
}

fn optional_truth(tag: Tag, v: Option<bool>) -> (a: Result<Vec<u8>, Status>)
    ensures
        im::read_answer(a) == truth_answer(tag, v),
{
    match v {
        None => Err(Status::UnsupportedAttribute),
        Some(v) => {
            let mut out: Vec<u8> = Vec::new();
            tlv::put_bool(&mut out, tag, v);
            proof {
                assert(out@ =~= tlv::bool_bytes(tag, v));
            }
            Ok(out)
        },
    }
}

fn encode_appearance(tag: Tag, a: Option<ProductAppearance>) -> (r: Result<Vec<u8>, Status>)
    ensures
        im::read_answer(r) == appearance_answer(tag, a),
{
    match a {
        None => Err(Status::UnsupportedAttribute),
        Some(a) => {
            let mut body: Vec<u8> = Vec::new();
            tlv::put_unsigned(&mut body, Tag::Context(0), a.finish.as_number());
            tlv::put_nullable(
                &mut body,
                Tag::Context(1),
                match a.primary_color {
                    Some(c) => Some(c as u64),
                    None => None,
                },
            );
            let mut out: Vec<u8> = Vec::new();
            tlv::put_structure(&mut out, tag, &body);
            proof {
                assert(body@ =~= tlv::unsigned_bytes(Tag::Context(0), a.finish.number()) + tlv::nullable_bytes(
                    Tag::Context(1),
                    color_of(a.primary_color),
                ));
                assert(out@ =~= tlv::structure_bytes(tag, body@));
            }
            Ok(out)
        },
    }
}

/// Basic Information of a product.
pub struct BasicInformation<'a> {
    /// The product.
    pub product: &'a Product<'a>,
    /// `Location`.
    pub location: Location,
    /// `NodeLabel`.
    pub node_label: Text<NODE_LABEL_MAX>,
    /// `LocalConfigDisabled`, where it is there.
    pub local_config_disabled: Option<bool>,
    /// `Reachable`, where it is there.
    pub reachable: Option<bool>,
}

impl<'a> BasicInformation<'a> {
    /// What can be changed.
    pub open spec fn mutable(&self) -> Mutable {
        Mutable {
            node_label: self.node_label@,
            location: self.location.code,
            local_config_disabled: self.local_config_disabled,
            reachable: self.reachable,
        }
    }

    /// A cluster about a product in a region.
    pub fn new(product: &'a Product<'a>, location: Location) -> (c: Self)
        ensures
            c.product == product,
            c.mutable() == (Mutable {
                node_label: Seq::empty(),
                location: location.code,
                local_config_disabled: None,
                reachable: None,
            }),
    {
        BasicInformation { product, location, node_label: Text::new(), local_config_disabled: None, reachable: None }
    }

    /// The same with `LocalConfigDisabled`.
    pub fn with_local_config_disabled(self, initial: bool) -> (c: Self)
        ensures
            c == (BasicInformation { local_config_disabled: Some(initial), ..self }),
    {
        BasicInformation { local_config_disabled: Some(initial), ..self }
    }

    /// The same with `Reachable`.
    pub fn with_reachable(self, initial: bool) -> (c: Self)
        ensures
            c == (BasicInformation { reachable: Some(initial), ..self }),
    {
        BasicInformation { reachable: Some(initial), ..self }
    }

    /// `NodeLabel`.
    pub fn node_label(&self) -> (s: &str)
        ensures
            s@ == self.node_label@,
    {
        self.node_label.as_str()
    }

    /// Sets `NodeLabel`; a name that is too long changes nothing.
    pub fn set_node_label(&mut self, label: &str) -> (r: Result<(), Status>)
        ensures
            final(self).product == old(self).product,
            if utf8::encode_utf8(label@).len() > NODE_LABEL_MAX {
                r == Err::<(), Status>(Status::ConstraintError) && final(self).mutable() == old(self).mutable()
            } else {
                r == Ok::<(), Status>(()) && final(self).mutable() == (Mutable {
                    node_label: label@,
                    ..old(self).mutable()
                })
            },
    {
        match Text::copy_of(label) {
            None => Err(Status::ConstraintError),
            Some(next) => {
                self.node_label = next;
                Ok(())
            },
        }
    }

    /// `Reachable`, where it is there.
    pub fn reachable(&self) -> (r: Option<bool>)
        ensures
            r == self.reachable,
    {
        self.reachable
    }

    /// Sets `Reachable` where it is there, and says whether that is a change.
    pub fn set_reachable(&mut self, reachable: bool) -> (changed: bool)
        ensures
            final(self).product == old(self).product,
            changed == (old(self).reachable == Some(!reachable)),
            final(self).mutable() == (Mutable {
                reachable: if old(self).reachable is Some { Some(reachable) } else { None },
                ..old(self).mutable()
            }),
    {
        match self.reachable {
            None => false,
            Some(current) => {
                if current == reachable {
                    return false;
                }
                self.reachable = Some(reachable);
                true
            },
        }
    }

    /// Whether `LocalConfigDisabled` is there.
    pub fn serves_local_config_disabled(&self) -> (r: bool)
        ensures
            r == (self.local_config_disabled is Some),
    {
        self.local_config_disabled.is_some()
    }

    /// Whether `Reachable` is there.
    pub fn serves_reachable(&self) -> (r: bool)
        ensures
            r == (self.reachable is Some),
    {
        self.reachable.is_some()
    }
}

/// What went wrong, where something did.
pub open spec fn refusal(r: Result<(), Status>) -> Option<Status> {
    match r {
        Ok(_) => None,
        Err(status) => Some(status),
    }
}

impl<'a> Cluster for BasicInformation<'a> {
    const ID: ClusterId = ID;
}

impl<'a> ClusterHandler for BasicInformation<'a> {
    open spec fn answers(&self, resolved: Resolved, ctx: InteractionContext, tag: Tag, a: ReadAnswer) -> bool {
        a == attribute_answer(*self.product, self.mutable(), resolved.attribute, tag)
    }

    open spec fn writes(
        before: &Self,
        after: &Self,
        resolved: Resolved,
        data: Seq<u8>,
        op: WriteOp,
        ctx: InteractionContext,
        r: Result<(), Status>,
    ) -> bool {
        &&& after.product == before.product
        &&& (after.mutable(), refusal(r)) == written(before.mutable(), resolved.attribute, data)
    }

    open spec fn invokes(
        before: &Self,
        after: &Self,
        resolved: ResolvedCommand,
        fields: Option<Seq<u8>>,
        ctx: InteractionContext,
        tag: Tag,
        a: InvokeAnswer,
    ) -> bool {
        *after == *before && a == im::refused(Status::UnsupportedCommand)
    }

    open spec fn outlives(before: &Self, after: &Self, event: Lifecycle) -> bool {
        *after == *before
    }

    open spec fn unfit(&self, resolved: ResolvedCommand) -> Status {
        Status::Failure
    }

    fn answer(&self, resolved: &Resolved, ctx: &InteractionContext, tag: Tag) -> (a: Result<Vec<u8>, Status>) {
        let p: &Product<'a> = self.product;
        match resolved.attribute {
            DATA_MODEL_REVISION_ID => encode_number(tag, DATA_MODEL_REVISION as u64),
            VENDOR_NAME => encode_text(tag, p.vendor_name),
            VENDOR_ID => encode_number(tag, p.vendor_id.0 as u64),
            PRODUCT_NAME => encode_text(tag, p.product_name),
            PRODUCT_ID => encode_number(tag, p.product_id as u64),
            NODE_LABEL => encode_text(tag, self.node_label.as_str()),
            LOCATION => {
                let code: Vec<u8> = vec![self.location.code.0, self.location.code.1];
                let mut out: Vec<u8> = Vec::new();
                tlv::put_utf8(&mut out, tag, code.as_slice());
                proof {
                    assert(code@ =~= seq![self.location.code.0, self.location.code.1]);
                    assert(out@ =~= tlv::utf8_bytes(tag, code@));
                }
                Ok(out)
            },
            HARDWARE_VERSION => encode_number(tag, p.hardware_version as u64),
            HARDWARE_VERSION_STRING => encode_text(tag, p.hardware_version_string),
            SOFTWARE_VERSION => encode_number(tag, p.software_version as u64),
            SOFTWARE_VERSION_STRING => encode_text(tag, p.software_version_string),
            MANUFACTURING_DATE => optional_string(tag, p.manufacturing_date),
            PART_NUMBER => optional_string(tag, p.part_number),
            PRODUCT_URL => optional_string(tag, p.product_url),
            PRODUCT_LABEL => optional_string(tag, p.product_label),
            SERIAL_NUMBER => optional_string(tag, p.serial_number),
            LOCAL_CONFIG_DISABLED => optional_truth(tag, self.local_config_disabled),
            REACHABLE => optional_truth(tag, self.reachable),
            UNIQUE_ID => encode_text(tag, p.unique_id),
            CAPABILITY_MINIMA => Ok(write_capability_minima(tag, &p.capability_minima)),
            PRODUCT_APPEARANCE => encode_appearance(tag, p.appearance),
            SPECIFICATION_VERSION_ID => encode_number(tag, SPECIFICATION_VERSION as u64),
            MAX_PATHS_PER_INVOKE => encode_number(tag, p.max_paths_per_invoke as u64),
            CONFIGURATION_VERSION => encode_number(tag, p.configuration_version as u64),
            _ => Err(Status::UnsupportedAttribute),
        }
    }

    fn write(&mut self, resolved: &Resolved, data: &[u8], op: WriteOp, ctx: &InteractionContext) -> (r: Result<(), Status>) {
        match resolved.attribute {
            NODE_LABEL => match read_utf8(data) {
                Err(status) => Err(status),
                Ok(s) => self.set_node_label(s),
            },
            LOCATION => match read_utf8(data) {
                Err(status) => Err(status),
                Ok(s) => self.location.set(s),
            },
            LOCAL_CONFIG_DISABLED => {
                if self.local_config_disabled.is_none() {
                    return Err(Status::UnsupportedAttribute);
                }
                match read_bool(data) {
                    Err(status) => Err(status),
                    Ok(v) => {
                        self.local_config_disabled = Some(v);
                        Ok(())
                    },
                }
            },
            _ => Err(Status::UnsupportedWrite),
        }
    }

    fn perform(
        &mut self,
        resolved: &ResolvedCommand,
        fields: Option<&[u8]>,
        ctx: &InteractionContext,
        tag: Tag,
    ) -> (a: Result<Reply, StatusIb>) {
        im::refuse(Status::UnsupportedCommand)
    }

    fn on_lifecycle(&mut self, event: Lifecycle) {
    }

    fn unfit_status(&self, resolved: &ResolvedCommand) -> (s: Status) {
        Status::Failure
    }
}

proof fn lemma_kept(t: Seq<(AttributeDescriptor, bool)>, n: int, id: AttributeId)
    requires
        0 <= n <= t.len(),
    ensures
        (exists|i: int| 0 <= i < kept(t, n).len() && (#[trigger] kept(t, n)[i]).id == id) == (exists|k: int|
            0 <= k < n && (#[trigger] t[k]).1 && t[k].0.id == id),
    decreases n,
{
    if n > 0 {
        lemma_kept(t, n - 1, id);
        let before = kept(t, n - 1);
        let after = kept(t, n);
        if t[n - 1].1 {
            assert(after == before.push(t[n - 1].0));
            assert(after[before.len() as int] == t[n - 1].0);
            assert forall|i: int| 0 <= i < before.len() implies #[trigger] after[i] == before[i] by {}
            if exists|i: int| 0 <= i < before.len() && (#[trigger] before[i]).id == id {
                let i = choose|i: int| 0 <= i < before.len() && (#[trigger] before[i]).id == id;
                assert(after[i].id == id);
            }
            if exists|i: int| 0 <= i < after.len() && (#[trigger] after[i]).id == id {
                let i = choose|i: int| 0 <= i < after.len() && (#[trigger] after[i]).id == id;
                if i < before.len() {
                    assert(before[i].id == id);
                } else {
                    assert(t[n - 1].0.id == id);
                }
            }
        }
    }
}

/// An attribute is listed exactly where it is answered.
pub proof fn law_what_is_listed_is_answered(p: Product, m: Mutable, id: AttributeId, tag: Tag)
    ensures
        ({
            let list = listed(p, m.local_config_disabled is Some, m.reachable is Some);
            (exists|i: int| 0 <= i < list.len() && (#[trigger] list[i]).id == id) == (attribute_answer(p, m, id, tag) is Ok)
        }),
{
    let t = table(p, m.local_config_disabled is Some, m.reachable is Some);
    lemma_kept(t, MAX_ATTRIBUTES as int, id);
    assert forall|k: int| 0 <= k < 23 implies (#[trigger] t[k]).0.id == k by {}
    assert(t[23].0.id == CONFIGURATION_VERSION);
    if id < 23 {
        assert(t[id as int].0.id == id);
    }
    if exists|k: int| 0 <= k < MAX_ATTRIBUTES && (#[trigger] t[k]).1 && t[k].0.id == id {
        let k = choose|k: int| 0 <= k < MAX_ATTRIBUTES && (#[trigger] t[k]).1 && t[k].0.id == id;
        assert(k < 23 ==> t[k].0.id == k);
    }
}

/// A write that is refused changes nothing, and no write changes whether an attribute is there.
pub proof fn law_a_write_never_adds_an_attribute(m: Mutable, id: AttributeId, b: Seq<u8>)
    ensures
        ({
            let (after, refused) = written(m, id, b);
            &&& refused is Some ==> after == m
            &&& (after.local_config_disabled is Some) == (m.local_config_disabled is Some)
            &&& after.reachable == m.reachable
        }),
{
}

/// A number is never reported as more than 10000, nor as less than it is below that.
pub proof fn law_a_capacity_is_clamped(n: usize)
    ensures
        capped(n) <= 10_000,
        n <= 10_000 ==> capped(n) == n,
{
}

/// A name of at most 32 octets, a region of two ASCII octets and whether local configuration is disabled are kept as they are
/// written, one without touching another, and are read back so; what does not fit is refused and changes nothing.
pub proof fn law_a_write_is_read_back<'a>(
    before: BasicInformation<'a>,
    after: BasicInformation<'a>,
    resolved: Resolved,
    b: Seq<u8>,
    op: WriteOp,
    ctx: InteractionContext,
    r: Result<(), Status>,
    tag: Tag,
    a: ReadAnswer,
)
    requires
        BasicInformation::writes(&before, &after, resolved, b, op, ctx, r),
        after.answers(resolved, ctx, tag, a),
    ensures
        ({
            let id = resolved.attribute;
            let e = tlv::element_at(b, 0)->Some_0.0;
            let text = tlv::element_at(b, 0) is Some && e.value is Utf8;
            let s = tlv::text_in(b, e);
            let octets = utf8::encode_utf8(s);
            &&& id != 0x0005 ==> after.node_label@ == before.node_label@
            &&& id != 0x0006 ==> after.location.code == before.location.code
            &&& id != 0x0010 ==> after.local_config_disabled == before.local_config_disabled
            &&& after.reachable == before.reachable
            &&& id == 0x0005 ==> if text && octets.len() <= 32 {
                r is Ok && after.node_label@ == s && a == Ok::<Seq<u8>, Status>(tlv::text_bytes(tag, s))
            } else {
                r == Err::<(), Status>(if text { Status::ConstraintError } else { Status::InvalidDataType }) && after.node_label@
                    == before.node_label@
            }
            &&& id == 0x0006 ==> if text && octets.len() == 2 && octets[0] < 0x80 && octets[1] < 0x80 {
                r is Ok && after.location.code == (octets[0], octets[1]) && a == Ok::<Seq<u8>, Status>(tlv::utf8_bytes(tag, octets))
            } else {
                r == Err::<(), Status>(if text { Status::ConstraintError } else { Status::InvalidDataType }) && after.location.code
                    == before.location.code
            }
            &&& id == 0x0010 ==> if before.local_config_disabled is None {
                r == Err::<(), Status>(Status::UnsupportedAttribute) && after.local_config_disabled is None
            } else if tlv::element_at(b, 0) is Some && e.value is Bool {
                &&& r is Ok && after.local_config_disabled is Some
                &&& e.value == Value::Bool(after.local_config_disabled->Some_0)
                &&& a == Ok::<Seq<u8>, Status>(tlv::bool_bytes(tag, after.local_config_disabled->Some_0))
            } else {
                r == Err::<(), Status>(Status::InvalidDataType) && after.local_config_disabled == before.local_config_disabled
            }
            &&& id != 0x0005 && id != 0x0006 && id != 0x0010 ==> r == Err::<(), Status>(Status::UnsupportedWrite)
        }),
{
    let octets = utf8::encode_utf8(tlv::text_in(b, tlv::element_at(b, 0)->Some_0.0));
    if octets.len() == 2 {
        assert(seq![octets[0], octets[1]] =~= octets);
    }
}

/// What a read shows is what the product is: each attribute under its own number, and those that it does not say as unsupported.
pub proof fn law_a_product_is_read_as_it_is<'a>(
    c: BasicInformation<'a>,
    resolved: Resolved,
    ctx: InteractionContext,
    tag: Tag,
    a: ReadAnswer,
)
    requires
        c.answers(resolved, ctx, tag, a),
    ensures
        ({
            let p = *c.product;
            let id = resolved.attribute;
            let number = |v: int| a is Ok && tlv::shows_number(a->Ok_0, 0, tag, v as u64);
            let text = |s: &str| a == Ok::<Seq<u8>, Status>(tlv::text_bytes(tag, s@));
            let maybe = |s: Option<&str>|
                match s {
                    Some(s) => a == Ok::<Seq<u8>, Status>(tlv::text_bytes(tag, s@)),
                    None => a == Err::<Seq<u8>, Status>(Status::UnsupportedAttribute),
                };
            &&& id == 0x0000 ==> number(20)
            &&& id == 0x0001 ==> text(p.vendor_name)
            &&& id == 0x0002 ==> number(p.vendor_id.0 as int)
            &&& id == 0x0003 ==> text(p.product_name)
            &&& id == 0x0004 ==> number(p.product_id as int)
            &&& id == 0x0007 ==> number(p.hardware_version as int)
            &&& id == 0x0008 ==> text(p.hardware_version_string)
            &&& id == 0x0009 ==> number(p.software_version as int)
            &&& id == 0x000A ==> text(p.software_version_string)
            &&& id == 0x000B ==> maybe(p.manufacturing_date)
            &&& id == 0x000C ==> maybe(p.part_number)
            &&& id == 0x000D ==> maybe(p.product_url)
            &&& id == 0x000E ==> maybe(p.product_label)
            &&& id == 0x000F ==> maybe(p.serial_number)
            &&& id == 0x0011 ==> match c.reachable {
                Some(v) => a == Ok::<Seq<u8>, Status>(tlv::bool_bytes(tag, v)),
                None => a == Err::<Seq<u8>, Status>(Status::UnsupportedAttribute),
            }
            &&& id == 0x0012 ==> text(p.unique_id)
            &&& id == 0x0013 ==> {
                let m = p.capability_minima;
                let some = |t: u8, v: Option<u16>|
                    match v {
                        Some(v) => tlv::unsigned_bytes(Tag::Context(t), v as u64),
                        None => Seq::empty(),
                    };
                a == Ok::<Seq<u8>, Status>(
                    tlv::structure_bytes(
                        tag,
                        tlv::unsigned_bytes(Tag::Context(0), m.case_sessions_per_fabric as u64) + tlv::unsigned_bytes(
                            Tag::Context(1),
                            m.subscriptions_per_fabric as u64,
                        ) + some(2, m.simultaneous_invocations) + some(3, m.simultaneous_writes) + some(4, m.read_paths) + some(
                            5,
                            m.subscribe_paths,
                        ),
                    ),
                )
            }
            &&& id == 0x0014 ==> match p.appearance {
                Some(x) => a == Ok::<Seq<u8>, Status>(
                    tlv::structure_bytes(
                        tag,
                        tlv::unsigned_bytes(
                            Tag::Context(0),
                            match x.finish {
                                ProductFinish::Other => 0,
                                ProductFinish::Matte => 1,
                                ProductFinish::Satin => 2,
                                ProductFinish::Polished => 3,
                                ProductFinish::Rugged => 4,
                                ProductFinish::Fabric => 5,
                            },
                        ) + match x.primary_color {
                            Some(v) => tlv::unsigned_bytes(Tag::Context(1), v as u64),
                            None => tlv::null_bytes(Tag::Context(1)),
                        },
                    ),
                ),
                None => a == Err::<Seq<u8>, Status>(Status::UnsupportedAttribute),
            }
            &&& id == 0x0015 ==> number(0x0106_0000)
            &&& id == 0x0016 ==> number(p.max_paths_per_invoke as int)
            &&& id == 0x0018 ==> number(p.configuration_version as int)
        }),
{
    assert forall|v: u64| tlv::shows_number(#[trigger] tlv::unsigned_bytes(tag, v), 0, tag, v) by {
        tlv::lemma_shows_number(tag, v);
    }
}

/// Who may do what: the name and whether local configuration is disabled can be written with Manage, the region with Administer, and
/// nothing else can be; everything can be read with View.
pub proof fn law_who_may_write_what(p: Product, local_config_disabled: bool, reachable: bool, n: int)
    requires
        0 <= n <= MAX_ATTRIBUTES,
    ensures
        forall|i: int|
            0 <= i < kept(table(p, local_config_disabled, reachable), n).len() ==> {
                let d = #[trigger] kept(table(p, local_config_disabled, reachable), n)[i];
                &&& d.access.read == Some(Privilege::View) && d.access.invoke is None
                &&& d.access.write == (if d.id == 0x0005 || d.id == 0x0010 {
                    Some(Privilege::Manage)
                } else if d.id == 0x0006 {
                    Some(Privilege::Administer)
                } else {
                    None
                })
                &&& d.qualities.non_volatile == (d.id == 0x0005 || d.id == 0x0006 || d.id == 0x0010 || d.id == 0x0018)
            },
    decreases n,
{
    if n > 0 {
        law_who_may_write_what(p, local_config_disabled, reachable, n - 1);
    }
}

} // verus!
