//! Bridged Device Basic Information, cluster `0x0039`: what a bridge knows of a device behind it.
//!
//! What the bridge does not know is not there, rather than blank. A request to keep a sleeping
//! device awake is kept until the device appears; a second one never shortens the first.

use vstd::prelude::*;
use vstd::utf8;

use crate::bounded;
use crate::bounded::{List, Text};
use crate::clusters::dispatch::Cluster;
use crate::conformance;
use crate::conformance::{Conformance, Conforming, Definition, DefinitionModel, Optional, OptionalModel};
use crate::dm::{EventPriority, Privilege};
use crate::error::ErrorCode;
use crate::fields;
use crate::fields::{Field, Fields, Kind, Need};
use crate::im;
use crate::im::{
    AttributeId, ClusterHandler, ClusterId, CommandId, EventId, InteractionContext, InvokeAnswer, Lifecycle, ReadAnswer, Reply,
    Resolved, ResolvedCommand, Status, StatusIb, WriteOp,
};
use crate::msg::VendorId;
use crate::platform;
use crate::platform::{Duration, Instant};
use crate::tlv;
use crate::tlv::Tag;

verus! {

/// The cluster.
pub const ID: ClusterId = 0x0039;

/// Its revision.
pub const REVISION: u16 = 5;

/// `BICS`: the device can be kept awake.
pub const BRIDGED_ICD_SUPPORT: u32 = 0x0010_0000;

/// `VendorName`.
pub const VENDOR_NAME: AttributeId = 0x0001;

/// `VendorID`.
pub const VENDOR_ID: AttributeId = 0x0002;

/// `ProductName`.
pub const PRODUCT_NAME: AttributeId = 0x0003;

/// `ProductID`.
pub const PRODUCT_ID: AttributeId = 0x0004;

/// `NodeLabel`.
pub const NODE_LABEL: AttributeId = 0x0005;

/// `HardwareVersion`.
pub const HARDWARE_VERSION: AttributeId = 0x0007;

/// `HardwareVersionString`.
pub const HARDWARE_VERSION_STRING: AttributeId = 0x0008;

/// `SoftwareVersion`.
pub const SOFTWARE_VERSION: AttributeId = 0x0009;

/// `SoftwareVersionString`.
pub const SOFTWARE_VERSION_STRING: AttributeId = 0x000A;

/// `ManufacturingDate`.
pub const MANUFACTURING_DATE: AttributeId = 0x000B;

/// `PartNumber`.
pub const PART_NUMBER: AttributeId = 0x000C;

/// `ProductURL`.
pub const PRODUCT_URL: AttributeId = 0x000D;

/// `ProductLabel`.
pub const PRODUCT_LABEL: AttributeId = 0x000E;

/// `SerialNumber`.
pub const SERIAL_NUMBER: AttributeId = 0x000F;

/// `Reachable`.
pub const REACHABLE: AttributeId = 0x0011;

/// `UniqueID`.
pub const UNIQUE_ID: AttributeId = 0x0012;

/// `ConfigurationVersion`.
pub const CONFIGURATION_VERSION: AttributeId = 0x0018;

/// `KeepActive`.
pub const KEEP_ACTIVE: CommandId = 0x80;

/// `ReachableChanged`.
pub const REACHABLE_CHANGED: EventId = 0x03;

/// `ActiveChanged`.
pub const ACTIVE_CHANGED: EventId = 0x80;

/// The most octets that a name may have.
pub const NODE_LABEL_MAX: usize = 32;

/// How many events are kept until the device takes them.
pub const PENDING: usize = 8;

/// What the bridge knows of a device.
#[derive(Debug, Clone, Copy)]
pub struct BridgedDevice<'a> {
    /// `VendorName`.
    pub vendor_name: Option<&'a str>,
    /// `VendorID`.
    pub vendor_id: Option<VendorId>,
    /// `ProductName`.
    pub product_name: Option<&'a str>,
    /// `ProductID`, of a device that speaks the same protocol.
    pub product_id: Option<u16>,
    /// `HardwareVersion`.
    pub hardware_version: Option<u16>,
    /// `HardwareVersionString`.
    pub hardware_version_string: Option<&'a str>,
    /// `SoftwareVersion`.
    pub software_version: Option<u32>,
    /// `SoftwareVersionString`.
    pub software_version_string: Option<&'a str>,
    /// `ManufacturingDate`.
    pub manufacturing_date: Option<&'a str>,
    /// `PartNumber`.
    pub part_number: Option<&'a str>,
    /// `ProductURL`.
    pub product_url: Option<&'a str>,
    /// `ProductLabel`.
    pub product_label: Option<&'a str>,
    /// `SerialNumber`.
    pub serial_number: Option<&'a str>,
    /// `UniqueID`.
    pub unique_id: Option<&'a str>,
    /// `ConfigurationVersion`.
    pub configuration_version: Option<u32>,
}

impl<'a> Default for BridgedDevice<'a> {
    /// A device that the bridge knows nothing of.
    fn default() -> (d: Self)
        ensures
            d == (BridgedDevice {
                vendor_name: None,
                vendor_id: None,
                product_name: None,
                product_id: None,
                hardware_version: None,
                hardware_version_string: None,
                software_version: None,
                software_version_string: None,
                manufacturing_date: None,
                part_number: None,
                product_url: None,
                product_label: None,
                serial_number: None,
                unique_id: None,
                configuration_version: None,
            }),
    {
        BridgedDevice {
            vendor_name: None,
            vendor_id: None,
            product_name: None,
            product_id: None,
            hardware_version: None,
            hardware_version_string: None,
            software_version: None,
            software_version_string: None,
            manufacturing_date: None,
            part_number: None,
            product_url: None,
            product_label: None,
            serial_number: None,
            unique_id: None,
            configuration_version: None,
        }
    }
}

/// A request to keep a device awake.
#[derive(Debug, Clone, Copy, PartialEq, Eq, Structural)]
pub struct PendingActive {
    /// For how long, in milliseconds.
    pub stay_active_ms: u32,
    /// When it lapses.
    pub expires: Instant,
}

/// Something that happened.
#[derive(Debug, Clone, Copy, PartialEq, Eq, Structural)]
pub enum Event {
    /// The device can be reached now, or cannot any more.
    ReachableChanged(bool),
    /// The device stays awake for so many milliseconds.
    ActiveChanged(u32),
}

/// An identifier, where it is there.
pub open spec fn given(id: u32, there: bool) -> Seq<u32> {
    if there {
        seq![id]
    } else {
        Seq::empty()
    }
}

/// The optional attributes that a bridge can fill; the name that a user gave is always there.
pub open spec fn fillable(d: BridgedDevice) -> Seq<AttributeId> {
    given(VENDOR_NAME, d.vendor_name is Some) + given(VENDOR_ID, d.vendor_id is Some) + given(
        PRODUCT_NAME,
        d.product_name is Some,
    ) + given(NODE_LABEL, true) + given(HARDWARE_VERSION, d.hardware_version is Some) + given(
        HARDWARE_VERSION_STRING,
        d.hardware_version_string is Some,
    ) + given(SOFTWARE_VERSION, d.software_version is Some) + given(
        SOFTWARE_VERSION_STRING,
        d.software_version_string is Some,
    ) + given(MANUFACTURING_DATE, d.manufacturing_date is Some) + given(PART_NUMBER, d.part_number is Some) + given(
        PRODUCT_URL,
        d.product_url is Some,
    ) + given(PRODUCT_LABEL, d.product_label is Some) + given(SERIAL_NUMBER, d.serial_number is Some) + given(
        UNIQUE_ID,
        d.unique_id is Some,
    ) + given(CONFIGURATION_VERSION, d.configuration_version is Some)
}

fn give(ids: &mut Vec<u32>, id: u32, there: bool)
    ensures
        final(ids)@ == old(ids)@ + given(id, there),
{
    if there {
        ids.push(id);
    }
    proof {
        assert(ids@ =~= old(ids)@ + given(id, there));
    }
}

/// The cluster's definition. The product's number is not in it: that is no option of the product.
pub open spec fn defined() -> DefinitionModel {
    DefinitionModel {
        id: ID,
        revision: REVISION,
        features: BRIDGED_ICD_SUPPORT,
        attributes: seq![
            conformance::reads(VENDOR_NAME, Conformance::Optional),
            conformance::reads(VENDOR_ID, Conformance::Optional),
            conformance::reads(PRODUCT_NAME, Conformance::Optional),
            conformance::writes(NODE_LABEL, Privilege::Manage, Conformance::Optional),
            conformance::reads(HARDWARE_VERSION, Conformance::Optional),
            conformance::reads(HARDWARE_VERSION_STRING, Conformance::Optional),
            conformance::reads(SOFTWARE_VERSION, Conformance::Optional),
            conformance::reads(SOFTWARE_VERSION_STRING, Conformance::Optional),
            conformance::reads(MANUFACTURING_DATE, Conformance::Optional),
            conformance::reads(PART_NUMBER, Conformance::Optional),
            conformance::reads(PRODUCT_URL, Conformance::Optional),
            conformance::reads(PRODUCT_LABEL, Conformance::Optional),
            conformance::reads(SERIAL_NUMBER, Conformance::Optional),
            conformance::reads(REACHABLE, Conformance::Mandatory),
            conformance::reads(UNIQUE_ID, Conformance::Optional),
            conformance::reads(CONFIGURATION_VERSION, Conformance::Optional),
        ],
        commands: seq![
            conformance::invokes(KEEP_ACTIVE, Privilege::Operate, None, Conformance::With(BRIDGED_ICD_SUPPORT)),
        ],
        generated: Seq::empty(),
        events: seq![
            conformance::tells(REACHABLE_CHANGED, EventPriority::Info, Conformance::Mandatory),
            conformance::tells(ACTIVE_CHANGED, EventPriority::Info, Conformance::With(BRIDGED_ICD_SUPPORT)),
        ],
    }
}

/// The cluster's definition, without the product's number.
pub fn definition() -> (d: Definition)
    ensures
        d@ == defined(),
{
    let d: Definition = Definition {
        id: ID,
        revision: REVISION,
        features: BRIDGED_ICD_SUPPORT,
        attributes: vec![
            conformance::readable(VENDOR_NAME, Conformance::Optional),
            conformance::readable(VENDOR_ID, Conformance::Optional),
            conformance::readable(PRODUCT_NAME, Conformance::Optional),
            conformance::writable(NODE_LABEL, Privilege::Manage, Conformance::Optional),
            conformance::readable(HARDWARE_VERSION, Conformance::Optional),
            conformance::readable(HARDWARE_VERSION_STRING, Conformance::Optional),
            conformance::readable(SOFTWARE_VERSION, Conformance::Optional),
            conformance::readable(SOFTWARE_VERSION_STRING, Conformance::Optional),
            conformance::readable(MANUFACTURING_DATE, Conformance::Optional),
            conformance::readable(PART_NUMBER, Conformance::Optional),
            conformance::readable(PRODUCT_URL, Conformance::Optional),
            conformance::readable(PRODUCT_LABEL, Conformance::Optional),
            conformance::readable(SERIAL_NUMBER, Conformance::Optional),
            conformance::readable(REACHABLE, Conformance::Mandatory),
            conformance::readable(UNIQUE_ID, Conformance::Optional),
            conformance::readable(CONFIGURATION_VERSION, Conformance::Optional),
        ],
        commands: vec![
            conformance::invocable(KEEP_ACTIVE, Privilege::Operate, None, Conformance::With(BRIDGED_ICD_SUPPORT)),
        ],
        generated: Vec::new(),
        events: vec![
            conformance::event(REACHABLE_CHANGED, EventPriority::Info, Conformance::Mandatory),
            conformance::event(ACTIVE_CHANGED, EventPriority::Info, Conformance::With(BRIDGED_ICD_SUPPORT)),
        ],
    };
    proof {
        assert(d@.attributes =~= defined().attributes);
        assert(d@.commands =~= defined().commands);
        assert(d@.events =~= defined().events);
    }
    d
}

/// A text attribute, which the bridge may not know.
pub open spec fn text_answer(tag: Tag, s: Option<&str>) -> ReadAnswer {
    match s {
        Some(s) => Ok(tlv::text_bytes(tag, s@)),
        None => Err(Status::UnsupportedAttribute),
    }
}

/// A number attribute, which the bridge may not know.
pub open spec fn number_answer(tag: Tag, v: Option<u64>) -> ReadAnswer {
    match v {
        Some(v) => Ok(tlv::unsigned_bytes(tag, v)),
        None => Err(Status::UnsupportedAttribute),
    }
}

fn encode_text(tag: Tag, s: Option<&str>) -> (a: Result<Vec<u8>, Status>)
    ensures
        im::read_answer(a) == text_answer(tag, s),
{
    match s {
        None => Err(Status::UnsupportedAttribute),
        Some(s) => {
            let mut out: Vec<u8> = Vec::new();
            tlv::put_text(&mut out, tag, s);
            proof {
                assert(out@ =~= tlv::text_bytes(tag, s@));
            }
            Ok(out)
        },
    }
}

fn encode_number(tag: Tag, v: Option<u64>) -> (a: Result<Vec<u8>, Status>)
    ensures
        im::read_answer(a) == number_answer(tag, v),
{
    match v {
        None => Err(Status::UnsupportedAttribute),
        Some(v) => {
            let mut out: Vec<u8> = Vec::new();
            tlv::put_unsigned(&mut out, tag, v);
            proof {
                assert(out@ =~= tlv::unsigned_bytes(tag, v));
            }
            Ok(out)
        },
    }
}

/// A number of 16 bits, widened.
pub open spec fn wide16(v: Option<u16>) -> Option<u64> {
    match v {
        Some(v) => Some(v as u64),
        None => None,
    }
}

/// A number of 32 bits, widened.
pub open spec fn wide32(v: Option<u32>) -> Option<u64> {
    match v {
        Some(v) => Some(v as u64),
        None => None,
    }
}

/// A vendor's number, widened.
pub open spec fn wide_vendor(v: Option<VendorId>) -> Option<u64> {
    match v {
        Some(v) => Some(v.0 as u64),
        None => None,
    }
}

fn widen16(v: Option<u16>) -> (w: Option<u64>)
    ensures
        w == wide16(v),
{
    match v {
        Some(v) => Some(v as u64),
        None => None,
    }
}

fn widen32(v: Option<u32>) -> (w: Option<u64>)
    ensures
        w == wide32(v),
{
    match v {
        Some(v) => Some(v as u64),
        None => None,
    }
}

/// A request and the one before it: for the longer, until the later.
pub open spec fn kept_awake(prior: Option<PendingActive>, stay_active_ms: u32, timeout_ms: u32, now: Instant) -> PendingActive {
    let expires = platform::later(now, timeout_ms * 1_000);
    match prior {
        Some(p) => PendingActive {
            stay_active_ms: if p.stay_active_ms > stay_active_ms { p.stay_active_ms } else { stay_active_ms },
            expires: if p.expires.micros > expires.micros { p.expires } else { expires },
        },
        None => PendingActive { stay_active_ms, expires },
    }
}

/// The fields of `KeepActive`.
pub open spec fn keep_schema() -> Seq<Field> {
    seq![Field(0, Kind::U32, Need::Required), Field(1, Kind::U32, Need::Required)]
}

/// What a command comes to.
pub open spec fn commanded(pending: Option<PendingActive>, command: CommandId, data: Option<Seq<u8>>, now: Instant) -> (
    Option<PendingActive>,
    InvokeAnswer,
) {
    if command != KEEP_ACTIVE {
        (pending, im::refused(Status::UnsupportedCommand))
    } else {
        match fields::decode_some(data, keep_schema()) {
            Err(status) => (pending, im::refused(status)),
            Ok(items) => match (fields::num32(items, 0), fields::num32(items, 1)) {
                (Some(stay), Some(timeout)) => (Some(kept_awake(pending, stay, timeout, now)), im::done()),
                _ => (pending, im::refused(Status::InvalidCommand)),
            },
        }
    }
}

/// The name that a write gives, or why it is refused.
pub open spec fn label_written(b: Seq<u8>) -> Result<Seq<char>, Status> {
    match tlv::element_at(b, 0) {
        None => Err(Status::InvalidAction),
        Some((e, _)) => if !(e.value is Utf8) {
            Err(Status::InvalidDataType)
        } else if utf8::encode_utf8(tlv::text_in(b, e)).len() > NODE_LABEL_MAX {
            Err(Status::ConstraintError)
        } else {
            Ok(tlv::text_in(b, e))
        },
    }
}

/// Bridged Device Basic Information of one device.
pub struct BridgedDeviceBasicInformation<'a> {
    /// What the bridge knows.
    pub device: BridgedDevice<'a>,
    /// `Reachable`.
    pub reachable: bool,
    /// `NodeLabel`.
    pub node_label: Text<NODE_LABEL_MAX>,
    /// The request that waits for the device.
    pub pending: Option<PendingActive>,
    /// What happened.
    pub events: List<Event, PENDING>,
}

impl<'a> BridgedDeviceBasicInformation<'a> {
    /// A cluster about a device.
    pub fn new(device: BridgedDevice<'a>, reachable: bool) -> (c: Self)
        ensures
            c.device == device,
            c.reachable == reachable,
            c.node_label@ == Seq::<char>::empty(),
            c.pending is None,
            c.events@ == Seq::<Event>::empty(),
    {
        BridgedDeviceBasicInformation {
            device,
            reachable,
            node_label: Text::new(),
            pending: None,
            events: List::new(),
        }
    }

    /// The description for features and for what the bridge can fill.
    pub fn conforming(features: u32, optional: &Optional) -> (r: Result<Conforming, ErrorCode>)
        ensures
            conformance::outcome(r) == conformance::conform(defined(), features, optional@),
    {
        Conforming::new(&definition(), features, optional)
    }

    /// The optional attributes that a bridge can fill.
    pub fn optional_for(device: &BridgedDevice) -> (o: Optional)
        ensures
            o@ == (OptionalModel { attributes: fillable(*device), commands: Seq::empty(), events: Seq::empty() }),
    {
        let mut ids: Vec<u32> = Vec::new();
        give(&mut ids, VENDOR_NAME, device.vendor_name.is_some());
        give(&mut ids, VENDOR_ID, device.vendor_id.is_some());
        give(&mut ids, PRODUCT_NAME, device.product_name.is_some());
        give(&mut ids, NODE_LABEL, true);
        give(&mut ids, HARDWARE_VERSION, device.hardware_version.is_some());
        give(&mut ids, HARDWARE_VERSION_STRING, device.hardware_version_string.is_some());
        give(&mut ids, SOFTWARE_VERSION, device.software_version.is_some());
        give(&mut ids, SOFTWARE_VERSION_STRING, device.software_version_string.is_some());
        give(&mut ids, MANUFACTURING_DATE, device.manufacturing_date.is_some());
        give(&mut ids, PART_NUMBER, device.part_number.is_some());
        give(&mut ids, PRODUCT_URL, device.product_url.is_some());
        give(&mut ids, PRODUCT_LABEL, device.product_label.is_some());
        give(&mut ids, SERIAL_NUMBER, device.serial_number.is_some());
        give(&mut ids, UNIQUE_ID, device.unique_id.is_some());
        give(&mut ids, CONFIGURATION_VERSION, device.configuration_version.is_some());
        proof {
            assert(Seq::<u32>::empty() + given(VENDOR_NAME, device.vendor_name is Some) =~= given(
                VENDOR_NAME,
                device.vendor_name is Some,
            ));
        }
        Optional { attributes: ids, commands: Vec::new(), events: Vec::new() }
    }

    /// What a bridge that can keep devices awake has beyond others.
    pub fn with_keep_active() -> (o: Optional)
        ensures
            o@ == (OptionalModel { attributes: Seq::empty(), commands: seq![KEEP_ACTIVE], events: Seq::empty() }),
    {
        let o: Optional = Optional { attributes: Vec::new(), commands: vec![KEEP_ACTIVE], events: Vec::new() };
        proof {
            assert(o@.commands =~= seq![KEEP_ACTIVE]);
        }
        o
    }

    /// What the bridge knows.
    pub fn device(&self) -> (d: &BridgedDevice<'a>)
        ensures
            *d == self.device,
    {
        &self.device
    }

    /// `Reachable`.
    pub fn reachable(&self) -> (r: bool)
        ensures
            r == self.reachable,
    {
        self.reachable
    }

    /// The device can be reached, or cannot; a change is an event.
    pub fn set_reachable(&mut self, reachable: bool)
        ensures
            final(self).reachable == reachable,
            final(self).events@ == (if reachable != old(self).reachable {
                bounded::newest(old(self).events@, Event::ReachableChanged(reachable), PENDING as nat)
            } else {
                old(self).events@
            }),
            final(self).device == old(self).device,
            final(self).node_label@ == old(self).node_label@,
            final(self).pending == old(self).pending,
    {
        let before: bool = self.reachable;
        self.reachable = reachable;
        if before != reachable {
            self.events.push_newest(Event::ReachableChanged(reachable));
        }
    }

    /// `NodeLabel`.
    pub fn node_label(&self) -> (s: &str)
        ensures
            s@ == self.node_label@,
    {
        self.node_label.as_str()
    }

    /// The request that waits for the device.
    pub fn pending_active(&self) -> (p: Option<PendingActive>)
        ensures
            p == self.pending,
    {
        self.pending
    }

    /// Drops a request that lapsed.
    pub fn poll(&mut self, now: Instant)
        ensures
            final(self).pending == (match old(self).pending {
                Some(p) => if now.micros >= p.expires.micros { None } else { Some(p) },
                None => None,
            }),
            final(self).device == old(self).device,
            final(self).reachable == old(self).reachable,
            final(self).node_label@ == old(self).node_label@,
            final(self).events@ == old(self).events@,
    {
        if let Some(p) = self.pending {
            if now.micros >= p.expires.micros {
                self.pending = None;
            }
        }
    }

    /// The device woke: the request is met, which is an event.
    pub fn became_active(&mut self)
        ensures
            final(self).pending is None,
            final(self).events@ == (match old(self).pending {
                Some(p) => bounded::newest(old(self).events@, Event::ActiveChanged(p.stay_active_ms), PENDING as nat),
                None => old(self).events@,
            }),
            final(self).device == old(self).device,
            final(self).reachable == old(self).reachable,
            final(self).node_label@ == old(self).node_label@,
    {
        if let Some(p) = self.pending {
            self.pending = None;
            self.events.push_newest(Event::ActiveChanged(p.stay_active_ms));
        }
    }

    /// Takes what happened.
    pub fn take_events(&mut self) -> (events: Vec<Event>)
        ensures
            events@ == old(self).events@,
            final(self).events@ == Seq::<Event>::empty(),
            final(self).device == old(self).device,
            final(self).reachable == old(self).reachable,
            final(self).node_label@ == old(self).node_label@,
            final(self).pending == old(self).pending,
    {
        self.events.take()
    }

    fn keep_active(&mut self, stay_active_ms: u32, timeout_ms: u32, now: Instant)
        ensures
            final(self).pending == Some(kept_awake(old(self).pending, stay_active_ms, timeout_ms, now)),
            final(self).device == old(self).device,
            final(self).reachable == old(self).reachable,
            final(self).node_label@ == old(self).node_label@,
            final(self).events@ == old(self).events@,
    {
        let expires: Instant = now.saturating_add(Duration::from_millis(timeout_ms));
        let merged: PendingActive = match self.pending {
            Some(p) => PendingActive {
                stay_active_ms: if p.stay_active_ms > stay_active_ms { p.stay_active_ms } else { stay_active_ms },
                expires: if p.expires.micros > expires.micros { p.expires } else { expires },
            },
            None => PendingActive { stay_active_ms, expires },
        };
        self.pending = Some(merged);
    }
}

/// What an attribute is answered with.
pub open spec fn attribute_answer(d: BridgedDevice, reachable: bool, label: Seq<char>, id: AttributeId, tag: Tag) -> ReadAnswer {
    if id == REACHABLE {
        Ok(tlv::bool_bytes(tag, reachable))
    } else if id == NODE_LABEL {
        Ok(tlv::text_bytes(tag, label))
    } else if id == VENDOR_NAME {
        text_answer(tag, d.vendor_name)
    } else if id == VENDOR_ID {
        number_answer(tag, wide_vendor(d.vendor_id))
    } else if id == PRODUCT_NAME {
        text_answer(tag, d.product_name)
    } else if id == PRODUCT_ID {
        number_answer(tag, wide16(d.product_id))
    } else if id == HARDWARE_VERSION {
        number_answer(tag, wide16(d.hardware_version))
    } else if id == HARDWARE_VERSION_STRING {
        text_answer(tag, d.hardware_version_string)
    } else if id == SOFTWARE_VERSION {
        number_answer(tag, wide32(d.software_version))
    } else if id == SOFTWARE_VERSION_STRING {
        text_answer(tag, d.software_version_string)
    } else if id == MANUFACTURING_DATE {
        text_answer(tag, d.manufacturing_date)
    } else if id == PART_NUMBER {
        text_answer(tag, d.part_number)
    } else if id == PRODUCT_URL {
        text_answer(tag, d.product_url)
    } else if id == PRODUCT_LABEL {
        text_answer(tag, d.product_label)
    } else if id == SERIAL_NUMBER {
        text_answer(tag, d.serial_number)
    } else if id == UNIQUE_ID {
        text_answer(tag, d.unique_id)
    } else if id == CONFIGURATION_VERSION {
        number_answer(tag, wide32(d.configuration_version))
    } else {
        Err(Status::UnsupportedAttribute)
    }
}

impl<'a> Cluster for BridgedDeviceBasicInformation<'a> {
    const ID: ClusterId = ID;
}

impl<'a> ClusterHandler for BridgedDeviceBasicInformation<'a> {
    open spec fn answers(&self, resolved: Resolved, ctx: InteractionContext, tag: Tag, a: ReadAnswer) -> bool {
        a == attribute_answer(self.device, self.reachable, self.node_label@, resolved.attribute, tag)
    }

    open spec fn writes(
        before: &Self,
        after: &Self,
        resolved: Resolved,
        data: Seq<u8>,
        op: WriteOp,
        ctx: InteractionContext,
        r: Result<(), Status>,
    ) -> bool {
        &&& after.device == before.device
        &&& after.reachable == before.reachable
        &&& after.pending == before.pending
        &&& after.events@ == before.events@
        &&& if resolved.attribute != NODE_LABEL {
            r == Err::<(), Status>(Status::UnsupportedWrite) && after.node_label@ == before.node_label@
        } else {
            match label_written(data) {
                Ok(label) => r == Ok::<(), Status>(()) && after.node_label@ == label,
                Err(status) => r == Err::<(), Status>(status) && after.node_label@ == before.node_label@,
            }
        }
    }

    open spec fn invokes(
        before: &Self,
        after: &Self,
        resolved: ResolvedCommand,
        fields: Option<Seq<u8>>,
        ctx: InteractionContext,
        tag: Tag,
        a: InvokeAnswer,
    ) -> bool {
        &&& (after.pending, a) == commanded(before.pending, resolved.command, fields, ctx.now)
        &&& after.device == before.device
        &&& after.reachable == before.reachable
        &&& after.node_label@ == before.node_label@
        &&& after.events@ == before.events@
    }

    open spec fn outlives(before: &Self, after: &Self, event: Lifecycle) -> bool {
        *after == *before
    }

    open spec fn unfit(&self, resolved: ResolvedCommand) -> Status {
        Status::Failure
    }

    fn answer(&self, resolved: &Resolved, ctx: &InteractionContext, tag: Tag) -> (a: Result<Vec<u8>, Status>) {
        let d: &BridgedDevice<'a> = &self.device;
        match resolved.attribute {
            REACHABLE => {
                let mut out: Vec<u8> = Vec::new();
                tlv::put_bool(&mut out, tag, self.reachable);
                proof {
                    assert(out@ =~= tlv::bool_bytes(tag, self.reachable));
                }
                Ok(out)
            },
            NODE_LABEL => encode_text(tag, Some(self.node_label.as_str())),
            VENDOR_NAME => encode_text(tag, d.vendor_name),
            VENDOR_ID => encode_number(
                tag,
                match d.vendor_id {
                    Some(v) => Some(v.0 as u64),
                    None => None,
                },
            ),
            PRODUCT_NAME => encode_text(tag, d.product_name),
            PRODUCT_ID => encode_number(tag, widen16(d.product_id)),
            HARDWARE_VERSION => encode_number(tag, widen16(d.hardware_version)),
            HARDWARE_VERSION_STRING => encode_text(tag, d.hardware_version_string),
            SOFTWARE_VERSION => encode_number(tag, widen32(d.software_version)),
            SOFTWARE_VERSION_STRING => encode_text(tag, d.software_version_string),
            MANUFACTURING_DATE => encode_text(tag, d.manufacturing_date),
            PART_NUMBER => encode_text(tag, d.part_number),
            PRODUCT_URL => encode_text(tag, d.product_url),
            PRODUCT_LABEL => encode_text(tag, d.product_label),
            SERIAL_NUMBER => encode_text(tag, d.serial_number),
            UNIQUE_ID => encode_text(tag, d.unique_id),
            CONFIGURATION_VERSION => encode_number(tag, widen32(d.configuration_version)),
            _ => Err(Status::UnsupportedAttribute),
        }
    }

    fn write(&mut self, resolved: &Resolved, data: &[u8], op: WriteOp, ctx: &InteractionContext) -> (r: Result<(), Status>) {
        if resolved.attribute != NODE_LABEL {
            return Err(Status::UnsupportedWrite);
        }
        let text: &str = match tlv::read_element(data, 0) {
            None => return Err(Status::InvalidAction),
            Some((e, _)) => match tlv::text_at(data, &e) {
                None => return Err(Status::InvalidDataType),
                Some(text) => text,
            },
        };
        match Text::copy_of(text) {
            None => Err(Status::ConstraintError),
            Some(label) => {
                self.node_label = label;
                Ok(())
            },
        }
    }

    fn perform(
        &mut self,
        resolved: &ResolvedCommand,
        fields: Option<&[u8]>,
        ctx: &InteractionContext,
        tag: Tag,
    ) -> (a: Result<Reply, StatusIb>) {
        if resolved.command != KEEP_ACTIVE {
            return im::refuse(Status::UnsupportedCommand);
        }
        let schema: Vec<Field> = vec![Field(0, Kind::U32, Need::Required), Field(1, Kind::U32, Need::Required)];
        proof {
            assert(schema@ =~= keep_schema());
        }
        let f: Fields = match fields::read_some(fields, &schema) {
            Err(status) => return im::refuse(status),
            Ok(f) => f,
        };
        match (f.num32(0), f.num32(1)) {
            (Some(stay), Some(timeout)) => {
                self.keep_active(stay, timeout, ctx.now);
                im::no_response()
            },
            _ => im::refuse(Status::InvalidCommand),
        }
    }

    fn on_lifecycle(&mut self, event: Lifecycle) {
    }

    fn unfit_status(&self, resolved: &ResolvedCommand) -> (s: Status) {
        Status::Failure
    }
}

/// A second request never shortens the first, neither how long the device stays awake nor how long
/// it is waited for.
pub proof fn law_a_second_request_never_shortens(prior: PendingActive, stay_active_ms: u32, timeout_ms: u32, now: Instant)
    ensures
        ({
            let merged = kept_awake(Some(prior), stay_active_ms, timeout_ms, now);
            let alone = kept_awake(None, stay_active_ms, timeout_ms, now);
            &&& merged.stay_active_ms >= prior.stay_active_ms
            &&& merged.stay_active_ms >= alone.stay_active_ms
            &&& merged.expires.micros >= prior.expires.micros
            &&& merged.expires.micros >= alone.expires.micros
        }),
{
}

/// Two requests come to the same in either order.
pub proof fn law_requests_merge_in_any_order(a: u32, at: u32, b: u32, bt: u32, now: Instant)
    ensures
        kept_awake(Some(kept_awake(None, a, at, now)), b, bt, now) == kept_awake(
            Some(kept_awake(None, b, bt, now)),
            a,
            at,
            now,
        ),
{
}

#[verifier::opaque]
spec fn lists(ids: Seq<u32>, x: u32) -> bool {
    ids.contains(x)
}

proof fn lemma_given(before: Seq<u32>, id: u32, there: bool, x: u32)
    ensures
        lists(before + given(id, there), x) == (lists(before, x) || (there && x == id)),
{
    reveal(lists);
    let all = before + given(id, there);
    if there {
        assert(all[before.len() as int] == id);
    }
    if before.contains(x) {
        let k = choose|k: int| 0 <= k < before.len() && before[k] == x;
        assert(all[k] == x);
    }
    if all.contains(x) {
        let k = choose|k: int| 0 <= k < all.len() && all[k] == x;
        if k < before.len() {
            assert(before[k] == x);
        }
    }
}

/// Whether the bridge knows what an optional attribute says.
spec fn known(d: BridgedDevice, id: AttributeId) -> bool {
    ||| id == VENDOR_NAME && d.vendor_name is Some
    ||| id == VENDOR_ID && d.vendor_id is Some
    ||| id == PRODUCT_NAME && d.product_name is Some
    ||| id == NODE_LABEL
    ||| id == HARDWARE_VERSION && d.hardware_version is Some
    ||| id == HARDWARE_VERSION_STRING && d.hardware_version_string is Some
    ||| id == SOFTWARE_VERSION && d.software_version is Some
    ||| id == SOFTWARE_VERSION_STRING && d.software_version_string is Some
    ||| id == MANUFACTURING_DATE && d.manufacturing_date is Some
    ||| id == PART_NUMBER && d.part_number is Some
    ||| id == PRODUCT_URL && d.product_url is Some
    ||| id == PRODUCT_LABEL && d.product_label is Some
    ||| id == SERIAL_NUMBER && d.serial_number is Some
    ||| id == UNIQUE_ID && d.unique_id is Some
    ||| id == CONFIGURATION_VERSION && d.configuration_version is Some
}

proof fn lemma_fillable(d: BridgedDevice, id: AttributeId)
    ensures
        fillable(d).contains(id) == known(d, id),
{
    let s0 = Seq::<u32>::empty();
    assert(!lists(s0, id) && lists(fillable(d), id) == fillable(d).contains(id)) by {
        reveal(lists);
    }
    let s1 = given(VENDOR_NAME, d.vendor_name is Some);
    let s2 = s1 + given(VENDOR_ID, d.vendor_id is Some);
    let s3 = s2 + given(PRODUCT_NAME, d.product_name is Some);
    let s4 = s3 + given(NODE_LABEL, true);
    let s5 = s4 + given(HARDWARE_VERSION, d.hardware_version is Some);
    let s6 = s5 + given(HARDWARE_VERSION_STRING, d.hardware_version_string is Some);
    let s7 = s6 + given(SOFTWARE_VERSION, d.software_version is Some);
    let s8 = s7 + given(SOFTWARE_VERSION_STRING, d.software_version_string is Some);
    let s9 = s8 + given(MANUFACTURING_DATE, d.manufacturing_date is Some);
    let s10 = s9 + given(PART_NUMBER, d.part_number is Some);
    let s11 = s10 + given(PRODUCT_URL, d.product_url is Some);
    let s12 = s11 + given(PRODUCT_LABEL, d.product_label is Some);
    let s13 = s12 + given(SERIAL_NUMBER, d.serial_number is Some);
    let s14 = s13 + given(UNIQUE_ID, d.unique_id is Some);
    assert(s0 + s1 =~= s1);
    lemma_given(s0, VENDOR_NAME, d.vendor_name is Some, id);
    lemma_given(s1, VENDOR_ID, d.vendor_id is Some, id);
    lemma_given(s2, PRODUCT_NAME, d.product_name is Some, id);
    lemma_given(s3, NODE_LABEL, true, id);
    lemma_given(s4, HARDWARE_VERSION, d.hardware_version is Some, id);
    lemma_given(s5, HARDWARE_VERSION_STRING, d.hardware_version_string is Some, id);
    lemma_given(s6, SOFTWARE_VERSION, d.software_version is Some, id);
    lemma_given(s7, SOFTWARE_VERSION_STRING, d.software_version_string is Some, id);
    lemma_given(s8, MANUFACTURING_DATE, d.manufacturing_date is Some, id);
    lemma_given(s9, PART_NUMBER, d.part_number is Some, id);
    lemma_given(s10, PRODUCT_URL, d.product_url is Some, id);
    lemma_given(s11, PRODUCT_LABEL, d.product_label is Some, id);
    lemma_given(s12, SERIAL_NUMBER, d.serial_number is Some, id);
    lemma_given(s13, UNIQUE_ID, d.unique_id is Some, id);
    lemma_given(s14, CONFIGURATION_VERSION, d.configuration_version is Some, id);
}

/// An attribute is answered exactly where the bridge can fill it, but for whether the device can be
/// reached, which is always answered, and for the product's number, which is no choice of the bridge.
pub proof fn law_what_is_fillable_is_answered(
    d: BridgedDevice,
    reachable: bool,
    label: Seq<char>,
    id: AttributeId,
    tag: Tag,
)
    requires
        id != REACHABLE,
        id != PRODUCT_ID,
    ensures
        (attribute_answer(d, reachable, label, id, tag) is Ok) == fillable(d).contains(id),
{
    lemma_fillable(d, id);
}

/// `KeepActive` asks for as long as the longer of the requests that wait says, until the later of their ends, which is the time
/// that it says from now on; nothing else of the device changes.
pub proof fn law_a_device_is_kept_awake<'a>(
    before: BridgedDeviceBasicInformation<'a>,
    after: BridgedDeviceBasicInformation<'a>,
    resolved: ResolvedCommand,
    b: Seq<u8>,
    items: Seq<tlv::Element>,
    stay: u32,
    timeout: u32,
    ctx: InteractionContext,
    tag: Tag,
    a: InvokeAnswer,
)
    requires
        BridgedDeviceBasicInformation::invokes(&before, &after, resolved, Some(b), ctx, tag, a),
        resolved.command == 0x80,
        fields::decode(b, seq![Field(0, Kind::U32, Need::Required), Field(1, Kind::U32, Need::Required)]) == Ok::<
            Seq<tlv::Element>,
            Status,
        >(items),
        fields::num32(items, 0) == Some(stay),
        fields::num32(items, 1) == Some(timeout),
        ctx.now.micros + timeout * 1000 <= u64::MAX,
    ensures
        a == im::done(),
        after.pending matches Some(p) && {
            let end = ctx.now.micros + timeout * 1000;
            &&& p.stay_active_ms >= stay && p.expires.micros >= end
            &&& before.pending is None ==> p.stay_active_ms == stay && p.expires.micros == end
            &&& before.pending matches Some(was) ==> {
                &&& p.stay_active_ms >= was.stay_active_ms && p.expires.micros >= was.expires.micros
                &&& p.stay_active_ms == stay || p.stay_active_ms == was.stay_active_ms
                &&& p.expires.micros == end || p.expires == was.expires
            }
        },
        after.reachable == before.reachable,
        after.node_label@ == before.node_label@,
        after.events@ == before.events@,
{
    assert(keep_schema() =~= seq![Field(0, Kind::U32, Need::Required), Field(1, Kind::U32, Need::Required)]);
}

/// A name of at most 32 octets is kept as it is written and read back so, and nothing else can be written.
pub proof fn law_a_name_is_read_back<'a>(
    before: BridgedDeviceBasicInformation<'a>,
    after: BridgedDeviceBasicInformation<'a>,
    resolved: Resolved,
    b: Seq<u8>,
    op: WriteOp,
    ctx: InteractionContext,
    r: Result<(), Status>,
    tag: Tag,
    a: ReadAnswer,
)
    requires
        BridgedDeviceBasicInformation::writes(&before, &after, resolved, b, op, ctx, r),
        after.answers(resolved, ctx, tag, a),
    ensures
        resolved.attribute != 0x0005 ==> r == Err::<(), Status>(Status::UnsupportedWrite) && after.node_label@ == before.node_label@,
        resolved.attribute == 0x0005 ==> match tlv::element_at(b, 0) {
            None => r == Err::<(), Status>(Status::InvalidAction) && after.node_label@ == before.node_label@,
            Some((e, _)) => {
                let s = tlv::text_in(b, e);
                if e.value is Utf8 && utf8::encode_utf8(s).len() <= 32 {
                    r is Ok && after.node_label@ == s && a == Ok::<Seq<u8>, Status>(tlv::text_bytes(tag, s))
                } else {
                    r == Err::<(), Status>(if e.value is Utf8 { Status::ConstraintError } else { Status::InvalidDataType })
                        && after.node_label@ == before.node_label@
                }
            },
        },
{
}

/// What a read shows is what the bridge knows of the device: each attribute under its own number, and those that it does not know
/// as unsupported.
pub proof fn law_a_device_is_read_as_it_is<'a>(
    c: BridgedDeviceBasicInformation<'a>,
    resolved: Resolved,
    ctx: InteractionContext,
    tag: Tag,
    a: ReadAnswer,
)
    requires
        c.answers(resolved, ctx, tag, a),
    ensures
        ({
            let d = c.device;
            let id = resolved.attribute;
            let none = a == Err::<Seq<u8>, Status>(Status::UnsupportedAttribute);
            let number = |v: int| a is Ok && tlv::shows_number(a->Ok_0, 0, tag, v as u64);
            let maybe = |s: Option<&str>|
                match s {
                    Some(s) => a == Ok::<Seq<u8>, Status>(tlv::text_bytes(tag, s@)),
                    None => none,
                };
            &&& id == 0x0001 ==> maybe(d.vendor_name)
            &&& id == 0x0002 ==> if d.vendor_id is Some { number(d.vendor_id->Some_0.0 as int) } else { none }
            &&& id == 0x0003 ==> maybe(d.product_name)
            &&& id == 0x0004 ==> if d.product_id is Some { number(d.product_id->Some_0 as int) } else { none }
            &&& id == 0x0007 ==> if d.hardware_version is Some { number(d.hardware_version->Some_0 as int) } else { none }
            &&& id == 0x0008 ==> maybe(d.hardware_version_string)
            &&& id == 0x0009 ==> if d.software_version is Some { number(d.software_version->Some_0 as int) } else { none }
            &&& id == 0x000A ==> maybe(d.software_version_string)
            &&& id == 0x000B ==> maybe(d.manufacturing_date)
            &&& id == 0x000C ==> maybe(d.part_number)
            &&& id == 0x000D ==> maybe(d.product_url)
            &&& id == 0x000E ==> maybe(d.product_label)
            &&& id == 0x000F ==> maybe(d.serial_number)
            &&& id == 0x0011 ==> a == Ok::<Seq<u8>, Status>(tlv::bool_bytes(tag, c.reachable))
            &&& id == 0x0012 ==> maybe(d.unique_id)
            &&& id == 0x0018 ==> if d.configuration_version is Some { number(d.configuration_version->Some_0 as int) } else { none }
        }),
{
    assert forall|v: u64| tlv::shows_number(#[trigger] tlv::unsigned_bytes(tag, v), 0, tag, v) by {
        tlv::lemma_shows_number(tag, v);
    }
}

/// How the cluster describes itself follows from the features and from what the product chooses: each attribute, command and event
/// is there exactly where they say so, with who may read, write or invoke it, and nothing else is.
pub proof fn law_the_cluster_describes_itself(features: u32, o: conformance::OptionalModel, c: crate::dm::ClusterModel)
    requires
        conformance::conform(defined(), features, o) == Ok::<crate::dm::ClusterModel, ErrorCode>(c),
    ensures
        c.id == 0x0039,
        c.revision == 5,
        c.feature_map == features,
        features & !0x0010_0000u32 == 0,
        c.attributes.contains(conformance::shown_attribute(0x0001, None)) == (o.attributes.contains(0x0001)),
        c.attributes.contains(conformance::shown_attribute(0x0002, None)) == (o.attributes.contains(0x0002)),
        c.attributes.contains(conformance::shown_attribute(0x0003, None)) == (o.attributes.contains(0x0003)),
        c.attributes.contains(conformance::shown_attribute(0x0005, Some(Privilege::Manage))) == (o.attributes.contains(0x0005)),
        c.attributes.contains(conformance::shown_attribute(0x0007, None)) == (o.attributes.contains(0x0007)),
        c.attributes.contains(conformance::shown_attribute(0x0008, None)) == (o.attributes.contains(0x0008)),
        c.attributes.contains(conformance::shown_attribute(0x0009, None)) == (o.attributes.contains(0x0009)),
        c.attributes.contains(conformance::shown_attribute(0x000A, None)) == (o.attributes.contains(0x000A)),
        c.attributes.contains(conformance::shown_attribute(0x000B, None)) == (o.attributes.contains(0x000B)),
        c.attributes.contains(conformance::shown_attribute(0x000C, None)) == (o.attributes.contains(0x000C)),
        c.attributes.contains(conformance::shown_attribute(0x000D, None)) == (o.attributes.contains(0x000D)),
        c.attributes.contains(conformance::shown_attribute(0x000E, None)) == (o.attributes.contains(0x000E)),
        c.attributes.contains(conformance::shown_attribute(0x000F, None)) == (o.attributes.contains(0x000F)),
        c.attributes.contains(conformance::shown_attribute(0x0011, None)) == (true),
        c.attributes.contains(conformance::shown_attribute(0x0012, None)) == (o.attributes.contains(0x0012)),
        c.attributes.contains(conformance::shown_attribute(0x0018, None)) == (o.attributes.contains(0x0018)),
        c.accepted_commands.contains(conformance::shown_command(0x80, Privilege::Operate, false, false, None)) == (features & 0x0010_0000 != 0),
        c.events.contains(conformance::shown_event(0x03, EventPriority::Info)) == (true),
        c.events.contains(conformance::shown_event(0x80, EventPriority::Info)) == (features & 0x0010_0000 != 0),
        c.attributes.len() <= 16,
        c.accepted_commands.len() <= 1,
        c.events.len() <= 2,
{
    let d = defined();
    assert(conformance::told_apart(d.attributes));
    assert(conformance::told_apart(d.commands));
    assert(conformance::told_apart(d.events));
    conformance::lemma_described(d.attributes, features, o.attributes, conformance::shown_attribute(0x0001, None), 0);
    conformance::lemma_described(d.attributes, features, o.attributes, conformance::shown_attribute(0x0002, None), 1);
    conformance::lemma_described(d.attributes, features, o.attributes, conformance::shown_attribute(0x0003, None), 2);
    conformance::lemma_described(d.attributes, features, o.attributes, conformance::shown_attribute(0x0005, Some(Privilege::Manage)), 3);
    conformance::lemma_described(d.attributes, features, o.attributes, conformance::shown_attribute(0x0007, None), 4);
    conformance::lemma_described(d.attributes, features, o.attributes, conformance::shown_attribute(0x0008, None), 5);
    conformance::lemma_described(d.attributes, features, o.attributes, conformance::shown_attribute(0x0009, None), 6);
    conformance::lemma_described(d.attributes, features, o.attributes, conformance::shown_attribute(0x000A, None), 7);
    conformance::lemma_described(d.attributes, features, o.attributes, conformance::shown_attribute(0x000B, None), 8);
    conformance::lemma_described(d.attributes, features, o.attributes, conformance::shown_attribute(0x000C, None), 9);
    conformance::lemma_described(d.attributes, features, o.attributes, conformance::shown_attribute(0x000D, None), 10);
    conformance::lemma_described(d.attributes, features, o.attributes, conformance::shown_attribute(0x000E, None), 11);
    conformance::lemma_described(d.attributes, features, o.attributes, conformance::shown_attribute(0x000F, None), 12);
    conformance::lemma_described(d.attributes, features, o.attributes, conformance::shown_attribute(0x0011, None), 13);
    conformance::lemma_described(d.attributes, features, o.attributes, conformance::shown_attribute(0x0012, None), 14);
    conformance::lemma_described(d.attributes, features, o.attributes, conformance::shown_attribute(0x0018, None), 15);
    conformance::lemma_described(d.commands, features, o.commands, conformance::shown_command(0x80, Privilege::Operate, false, false, None), 0);
    conformance::lemma_described(d.events, features, o.events, conformance::shown_event(0x03, EventPriority::Info), 0);
    conformance::lemma_described(d.events, features, o.events, conformance::shown_event(0x80, EventPriority::Info), 1);
    conformance::lemma_at_most(d.attributes, features, o.attributes, d.attributes.len() as int);
    conformance::lemma_at_most(d.commands, features, o.commands, d.commands.len() as int);
    conformance::lemma_at_most(d.events, features, o.events, d.events.len() as int);
}

} // verus!
