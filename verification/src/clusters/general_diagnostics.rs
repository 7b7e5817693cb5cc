//! General Diagnostics, cluster `0x0033`: interfaces, faults, uptime, and the gated test commands.
//!
//! What a node does not know of itself it says plainly. The test commands answer only where a key
//! was provisioned, and then only to whoever has it; every way to fail looks the same.

use vstd::prelude::*;

use crate::bounded;
use crate::clusters::dispatch::Cluster;
use crate::clusters::general_diagnostics::recorded::Recorded;
use crate::conformance;
use crate::conformance::{Conformance, Conforming, Definition, DefinitionModel, Optional, OptionalModel};
use crate::crypto;
use crate::crypto::{SymmetricKey, SYMMETRIC_KEY_LENGTH_BYTES};
use crate::dm::{EventPriority, Privilege};
use crate::error::ErrorCode;
use crate::im;
use crate::im::{
    AttributeId, ClusterHandler, ClusterId, CommandId, EventId, InteractionContext, InvokeAnswer, Lifecycle, ReadAnswer, Reply,
    Resolved, ResolvedCommand, Status, StatusIb, WriteOp,
};
use crate::platform::Instant;
use crate::tlv;
use crate::tlv::{Numbered, Tag};
use crate::walk;
use crate::walk::{Manner, Slot, Walked, Want};

pub mod recorded;

verus! {

/// The cluster.
pub const ID: ClusterId = 0x0033;

/// Its revision.
pub const REVISION: u16 = 3;

/// `DMTEST`: the commands that test how data is carried.
pub const FEATURE_DATA_MODEL_TEST: u32 = 0x01;

/// `NetworkInterfaces`.
pub const NETWORK_INTERFACES: AttributeId = 0x0000;

/// `RebootCount`.
pub const REBOOT_COUNT: AttributeId = 0x0001;

/// `UpTime`.
pub const UP_TIME: AttributeId = 0x0002;

/// `TotalOperationalHours`.
pub const TOTAL_OPERATIONAL_HOURS: AttributeId = 0x0003;

/// `BootReason`.
pub const BOOT_REASON: AttributeId = 0x0004;

/// `ActiveHardwareFaults`.
pub const ACTIVE_HARDWARE_FAULTS: AttributeId = 0x0005;

/// `ActiveRadioFaults`.
pub const ACTIVE_RADIO_FAULTS: AttributeId = 0x0006;

/// `ActiveNetworkFaults`.
pub const ACTIVE_NETWORK_FAULTS: AttributeId = 0x0007;

/// `TestEventTriggersEnabled`.
pub const TEST_EVENT_TRIGGERS_ENABLED: AttributeId = 0x0008;

/// `DeviceLoadStatus`.
pub const DEVICE_LOAD_STATUS: AttributeId = 0x000A;

/// `TestEventTrigger`.
pub const TEST_EVENT_TRIGGER: CommandId = 0x00;

/// `TimeSnapshot`.
pub const TIME_SNAPSHOT: CommandId = 0x01;

/// `TimeSnapshotResponse`.
pub const TIME_SNAPSHOT_RESPONSE: CommandId = 0x02;

/// `PayloadTestRequest`.
pub const PAYLOAD_TEST_REQUEST: CommandId = 0x03;

/// `PayloadTestResponse`.
pub const PAYLOAD_TEST_RESPONSE: CommandId = 0x04;

/// `HardwareFaultChange`.
pub const HARDWARE_FAULT_CHANGE: EventId = 0x00;

/// `RadioFaultChange`.
pub const RADIO_FAULT_CHANGE: EventId = 0x01;

/// `NetworkFaultChange`.
pub const NETWORK_FAULT_CHANGE: EventId = 0x02;

/// `BootReason`, the event.
pub const BOOT_REASON_EVENT: EventId = 0x03;

/// The most octets that `PayloadTestRequest` may ask for.
pub const PAYLOAD_TEST_MAX: u16 = 2048;

/// The most octets that a key is read from.
pub const KEY_FIELD_MAX: usize = 32;

/// What is wrong with the hardware.
#[derive(Debug, Clone, Copy, PartialEq, Eq, Structural)]
pub enum HardwareFault {
    /// Something.
    Unspecified,
    /// A radio.
    Radio,
    /// A sensor.
    Sensor,
    /// It is too hot, which can be reset.
    ResettableOverTemp,
    /// It is too hot, which cannot be reset.
    NonResettableOverTemp,
    /// A power source.
    PowerSource,
    /// A display.
    VisualDisplayFault,
    /// An audio output.
    AudioOutputFault,
    /// A user interface.
    UserInterfaceFault,
    /// The memory that keeps.
    NonVolatileMemoryError,
    /// Somebody opened it.
    TamperDetected,
}

impl Numbered for HardwareFault {
    open spec fn number(self) -> u64 {
        match self {
            HardwareFault::Unspecified => 0,
            HardwareFault::Radio => 1,
            HardwareFault::Sensor => 2,
            HardwareFault::ResettableOverTemp => 3,
            HardwareFault::NonResettableOverTemp => 4,
            HardwareFault::PowerSource => 5,
            HardwareFault::VisualDisplayFault => 6,
            HardwareFault::AudioOutputFault => 7,
            HardwareFault::UserInterfaceFault => 8,
            HardwareFault::NonVolatileMemoryError => 9,
            HardwareFault::TamperDetected => 10,
        }
    }

    fn as_number(self) -> (v: u64) {
        match self {
            HardwareFault::Unspecified => 0,
            HardwareFault::Radio => 1,
            HardwareFault::Sensor => 2,
            HardwareFault::ResettableOverTemp => 3,
            HardwareFault::NonResettableOverTemp => 4,
            HardwareFault::PowerSource => 5,
            HardwareFault::VisualDisplayFault => 6,
            HardwareFault::AudioOutputFault => 7,
            HardwareFault::UserInterfaceFault => 8,
            HardwareFault::NonVolatileMemoryError => 9,
            HardwareFault::TamperDetected => 10,
        }
    }
}

/// What is wrong with a radio.
#[derive(Debug, Clone, Copy, PartialEq, Eq, Structural)]
pub enum RadioFault {
    /// Something.
    Unspecified,
    /// Wi-Fi.
    WiFiFault,
    /// Cellular.
    CellularFault,
    /// Thread.
    ThreadFault,
    /// NFC.
    NfcFault,
    /// Bluetooth.
    BleFault,
    /// Ethernet.
    EthernetFault,
}

impl Numbered for RadioFault {
    open spec fn number(self) -> u64 {
        match self {
            RadioFault::Unspecified => 0,
            RadioFault::WiFiFault => 1,
            RadioFault::CellularFault => 2,
            RadioFault::ThreadFault => 3,
            RadioFault::NfcFault => 4,
            RadioFault::BleFault => 5,
            RadioFault::EthernetFault => 6,
        }
    }

    fn as_number(self) -> (v: u64) {
        match self {
            RadioFault::Unspecified => 0,
            RadioFault::WiFiFault => 1,
            RadioFault::CellularFault => 2,
            RadioFault::ThreadFault => 3,
            RadioFault::NfcFault => 4,
            RadioFault::BleFault => 5,
            RadioFault::EthernetFault => 6,
        }
    }
}

/// What is wrong with the network.
#[derive(Debug, Clone, Copy, PartialEq, Eq, Structural)]
pub enum NetworkFault {
    /// Something.
    Unspecified,
    /// Its hardware.
    HardwareFailure,
    /// It is jammed.
    NetworkJammed,
    /// No connection comes about.
    ConnectionFailed,
}

impl Numbered for NetworkFault {
    open spec fn number(self) -> u64 {
        match self {
            NetworkFault::Unspecified => 0,
            NetworkFault::HardwareFailure => 1,
            NetworkFault::NetworkJammed => 2,
            NetworkFault::ConnectionFailed => 3,
        }
    }

    fn as_number(self) -> (v: u64) {
        match self {
            NetworkFault::Unspecified => 0,
            NetworkFault::HardwareFailure => 1,
            NetworkFault::NetworkJammed => 2,
            NetworkFault::ConnectionFailed => 3,
        }
    }
}

/// What an interface is.
#[derive(Debug, Clone, Copy, PartialEq, Eq, Structural)]
pub enum InterfaceType {
    /// Something.
    Unspecified,
    /// Wi-Fi.
    WiFi,
    /// Ethernet.
    Ethernet,
    /// Cellular.
    Cellular,
    /// Thread.
    Thread,
}

impl Default for InterfaceType {
    /// Nobody said which.
    fn default() -> (d: Self)
        ensures
            d == InterfaceType::Unspecified,
    {
        InterfaceType::Unspecified
    }
}

impl Numbered for InterfaceType {
    open spec fn number(self) -> u64 {
        match self {
            InterfaceType::Unspecified => 0,
            InterfaceType::WiFi => 1,
            InterfaceType::Ethernet => 2,
            InterfaceType::Cellular => 3,
            InterfaceType::Thread => 4,
        }
    }

    fn as_number(self) -> (v: u64) {
        match self {
            InterfaceType::Unspecified => 0,
            InterfaceType::WiFi => 1,
            InterfaceType::Ethernet => 2,
            InterfaceType::Cellular => 3,
            InterfaceType::Thread => 4,
        }
    }
}

/// Why the node started.
#[derive(Debug, Clone, Copy, PartialEq, Eq, Structural)]
pub enum BootReason {
    /// Nobody knows.
    Unspecified,
    /// Somebody did.
    PowerOnReboot,
    /// The supply sagged.
    BrownOutReset,
    /// The software's watchdog.
    SoftwareWatchdogReset,
    /// The hardware's watchdog.
    HardwareWatchdogReset,
    /// An update was completed.
    SoftwareUpdateCompleted,
    /// The software did.
    SoftwareReset,
}

impl Default for BootReason {
    /// Nobody said why.
    fn default() -> (d: Self)
        ensures
            d == BootReason::Unspecified,
    {
        BootReason::Unspecified
    }
}

impl Numbered for BootReason {
    open spec fn number(self) -> u64 {
        match self {
            BootReason::Unspecified => 0,
            BootReason::PowerOnReboot => 1,
            BootReason::BrownOutReset => 2,
            BootReason::SoftwareWatchdogReset => 3,
            BootReason::HardwareWatchdogReset => 4,
            BootReason::SoftwareUpdateCompleted => 5,
            BootReason::SoftwareReset => 6,
        }
    }

    fn as_number(self) -> (v: u64) {
        match self {
            BootReason::Unspecified => 0,
            BootReason::PowerOnReboot => 1,
            BootReason::BrownOutReset => 2,
            BootReason::SoftwareWatchdogReset => 3,
            BootReason::HardwareWatchdogReset => 4,
            BootReason::SoftwareUpdateCompleted => 5,
            BootReason::SoftwareReset => 6,
        }
    }
}

/// One interface.
#[derive(Debug, Clone, Copy)]
pub struct NetworkInterface<'a> {
    /// What to call it.
    pub name: &'a str,
    /// Whether the node can be reached over it.
    pub is_operational: bool,
    /// Whether services elsewhere can be reached over IPv4, where that is known.
    pub off_premise_ipv4: Option<bool>,
    /// The same over IPv6.
    pub off_premise_ipv6: Option<bool>,
    /// Its link-layer address.
    pub hardware_address: &'a [u8],
    /// Its IPv4 addresses.
    pub ipv4_addresses: &'a [[u8; 4]],
    /// Its IPv6 addresses.
    pub ipv6_addresses: &'a [[u8; 16]],
    /// What it is.
    pub interface_type: InterfaceType,
}

/// An IPv4 address as an item of a list.
pub open spec fn ipv4_bytes() -> spec_fn([u8; 4]) -> Seq<u8> {
    |a: [u8; 4]| tlv::octets_bytes(Tag::Anonymous, a@)
}

/// An IPv6 address as an item of a list.
pub open spec fn ipv6_bytes() -> spec_fn([u8; 16]) -> Seq<u8> {
    |a: [u8; 16]| tlv::octets_bytes(Tag::Anonymous, a@)
}

/// An interface as an item of a list: no more than four IPv4 addresses and eight IPv6 addresses.
pub open spec fn interface_bytes<'a>() -> spec_fn(NetworkInterface<'a>) -> Seq<u8> {
    |i: NetworkInterface<'a>|
        tlv::structure_bytes(
            Tag::Anonymous,
            tlv::text_bytes(Tag::Context(0), i.name@) + tlv::bool_bytes(Tag::Context(1), i.is_operational)
                + tlv::nullable_bool_bytes(Tag::Context(2), i.off_premise_ipv4) + tlv::nullable_bool_bytes(
                Tag::Context(3),
                i.off_premise_ipv6,
            ) + tlv::octets_bytes(Tag::Context(4), i.hardware_address@) + tlv::array_bytes(
                Tag::Context(5),
                tlv::concat(bounded::leading(i.ipv4_addresses@, 4), ipv4_bytes()),
            ) + tlv::array_bytes(
                Tag::Context(6),
                tlv::concat(bounded::leading(i.ipv6_addresses@, 8), ipv6_bytes()),
            ) + tlv::unsigned_bytes(Tag::Context(7), i.interface_type.number()),
        )
}

fn put_ipv4(out: &mut Vec<u8>, tag: Tag, addresses: &[[u8; 4]])
    ensures
        final(out)@ == old(out)@ + tlv::array_bytes(tag, tlv::concat(bounded::leading(addresses@, 4), ipv4_bytes())),
{
    let mut body: Vec<u8> = Vec::new();
    let ghost shown = bounded::leading(addresses@, 4);
    let n: usize = if addresses.len() < 4 { addresses.len() } else { 4 };
    let mut i: usize = 0;
    proof {
        assert(shown.take(0) =~= Seq::<[u8; 4]>::empty());
        assert(body@ =~= tlv::concat(shown.take(0), ipv4_bytes()));
    }
    while i < n
        invariant
            i <= n == shown.len() <= addresses@.len(),
            shown == bounded::leading(addresses@, 4),
            body@ == tlv::concat(shown.take(i as int), ipv4_bytes()),
        decreases n - i,
    {
        proof {
            assert(shown[i as int] == addresses@[i as int]);
            tlv::lemma_concat_take(shown, i as int, ipv4_bytes());
        }
        tlv::put_octets(&mut body, Tag::Anonymous, addresses[i].as_slice());
        i = i + 1;
    }
    proof {
        assert(shown.take(i as int) =~= shown);
    }
    tlv::put_array(out, tag, &body);
}

fn put_ipv6(out: &mut Vec<u8>, tag: Tag, addresses: &[[u8; 16]])
    ensures
        final(out)@ == old(out)@ + tlv::array_bytes(tag, tlv::concat(bounded::leading(addresses@, 8), ipv6_bytes())),
{
    let mut body: Vec<u8> = Vec::new();
    let ghost shown = bounded::leading(addresses@, 8);
    let n: usize = if addresses.len() < 8 { addresses.len() } else { 8 };
    let mut i: usize = 0;
    proof {
        assert(shown.take(0) =~= Seq::<[u8; 16]>::empty());
        assert(body@ =~= tlv::concat(shown.take(0), ipv6_bytes()));
    }
    while i < n
        invariant
            i <= n == shown.len() <= addresses@.len(),
            shown == bounded::leading(addresses@, 8),
            body@ == tlv::concat(shown.take(i as int), ipv6_bytes()),
        decreases n - i,
    {
        proof {
            assert(shown[i as int] == addresses@[i as int]);
            tlv::lemma_concat_take(shown, i as int, ipv6_bytes());
        }
        tlv::put_octets(&mut body, Tag::Anonymous, addresses[i].as_slice());
        i = i + 1;
    }
    proof {
        assert(shown.take(i as int) =~= shown);
    }
    tlv::put_array(out, tag, &body);
}

impl<'a> NetworkInterface<'a> {
    fn encode(&self, out: &mut Vec<u8>)
        ensures
            final(out)@ == old(out)@ + interface_bytes()(*self),
    {
        let mut body: Vec<u8> = Vec::new();
        tlv::put_text(&mut body, Tag::Context(0), self.name);
        tlv::put_bool(&mut body, Tag::Context(1), self.is_operational);
        tlv::put_nullable_bool(&mut body, Tag::Context(2), self.off_premise_ipv4);
        tlv::put_nullable_bool(&mut body, Tag::Context(3), self.off_premise_ipv6);
        tlv::put_octets(&mut body, Tag::Context(4), self.hardware_address);
        put_ipv4(&mut body, Tag::Context(5), self.ipv4_addresses);
        put_ipv6(&mut body, Tag::Context(6), self.ipv6_addresses);
        tlv::put_unsigned(&mut body, Tag::Context(7), self.interface_type.as_number());
        proof {
            assert(body@ =~= tlv::text_bytes(Tag::Context(0), self.name@) + tlv::bool_bytes(
                Tag::Context(1),
                self.is_operational,
            ) + tlv::nullable_bool_bytes(Tag::Context(2), self.off_premise_ipv4) + tlv::nullable_bool_bytes(
                Tag::Context(3),
                self.off_premise_ipv6,
            ) + tlv::octets_bytes(Tag::Context(4), self.hardware_address@) + tlv::array_bytes(
                Tag::Context(5),
                tlv::concat(bounded::leading(self.ipv4_addresses@, 4), ipv4_bytes()),
            ) + tlv::array_bytes(
                Tag::Context(6),
                tlv::concat(bounded::leading(self.ipv6_addresses@, 8), ipv6_bytes()),
            ) + tlv::unsigned_bytes(Tag::Context(7), self.interface_type.number()));
        }
        tlv::put_structure(out, Tag::Anonymous, &body);
    }
}

/// How hard the node is working.
#[derive(Debug, Clone, Copy, PartialEq, Eq, Structural)]
pub struct DeviceLoad {
    /// Subscriptions of every fabric.
    pub current_subscriptions: u16,
    /// Subscriptions of the accessing fabric.
    pub current_subscriptions_for_fabric: u16,
    /// Subscriptions since the start.
    pub total_subscriptions_established: u32,
    /// Messages sent since the start.
    pub total_im_messages_sent: u32,
    /// Messages received since the start.
    pub total_im_messages_received: u32,
}

impl Default for DeviceLoad {
    /// No load.
    fn default() -> (d: Self)
        ensures
            d == (DeviceLoad {
                current_subscriptions: 0,
                current_subscriptions_for_fabric: 0,
                total_subscriptions_established: 0,
                total_im_messages_sent: 0,
                total_im_messages_received: 0,
            }),
    {
        DeviceLoad {
            current_subscriptions: 0,
            current_subscriptions_for_fabric: 0,
            total_subscriptions_established: 0,
            total_im_messages_sent: 0,
            total_im_messages_received: 0,
        }
    }
}

/// A load on the wire.
pub open spec fn load_bytes(tag: Tag, l: DeviceLoad) -> Seq<u8> {
    tlv::structure_bytes(
        tag,
        tlv::unsigned_bytes(Tag::Context(0), l.current_subscriptions as u64) + tlv::unsigned_bytes(
            Tag::Context(1),
            l.current_subscriptions_for_fabric as u64,
        ) + tlv::unsigned_bytes(Tag::Context(2), l.total_subscriptions_established as u64) + tlv::unsigned_bytes(
            Tag::Context(3),
            l.total_im_messages_sent as u64,
        ) + tlv::unsigned_bytes(Tag::Context(4), l.total_im_messages_received as u64),
    )
}

impl DeviceLoad {
    fn encode(&self, out: &mut Vec<u8>, tag: Tag)
        ensures
            final(out)@ == old(out)@ + load_bytes(tag, *self),
    {
        let mut body: Vec<u8> = Vec::new();
        tlv::put_unsigned(&mut body, Tag::Context(0), self.current_subscriptions as u64);
        tlv::put_unsigned(&mut body, Tag::Context(1), self.current_subscriptions_for_fabric as u64);
        tlv::put_unsigned(&mut body, Tag::Context(2), self.total_subscriptions_established as u64);
        tlv::put_unsigned(&mut body, Tag::Context(3), self.total_im_messages_sent as u64);
        tlv::put_unsigned(&mut body, Tag::Context(4), self.total_im_messages_received as u64);
        proof {
            assert(body@ =~= tlv::unsigned_bytes(Tag::Context(0), self.current_subscriptions as u64)
                + tlv::unsigned_bytes(Tag::Context(1), self.current_subscriptions_for_fabric as u64)
                + tlv::unsigned_bytes(Tag::Context(2), self.total_subscriptions_established as u64)
                + tlv::unsigned_bytes(Tag::Context(3), self.total_im_messages_sent as u64) + tlv::unsigned_bytes(
                Tag::Context(4),
                self.total_im_messages_received as u64,
            ));
        }
        tlv::put_structure(out, tag, &body);
    }
}

/// What a device knows of itself; where it does not know, it says so.
pub trait Diagnostics {
    /// The interfaces.
    fn network_interfaces(&self) -> (r: Vec<NetworkInterface<'_>>)
        default_ensures
            r@.len() == 0,
    {
        Vec::new()
    }

    /// How often it started.
    fn reboot_count(&self) -> (r: u16)
        default_ensures
            r == 0,
    {
        0
    }

    /// Seconds since it started.
    fn up_time(&self) -> (r: u64)
        default_ensures
            r == 0,
    {
        0
    }

    /// Hours that it has been running in all, where it counts them.
    fn total_operational_hours(&self) -> (r: Option<u32>)
        default_ensures
            r is None,
    {
        None
    }

    /// Why it started.
    fn boot_reason(&self) -> (r: BootReason)
        default_ensures
            r == BootReason::Unspecified,
    {
        BootReason::Unspecified
    }

    /// What is wrong with the hardware.
    fn active_hardware_faults(&self) -> (r: Vec<HardwareFault>)
        default_ensures
            r@.len() == 0,
    {
        Vec::new()
    }

    /// What is wrong with the radios.
    fn active_radio_faults(&self) -> (r: Vec<RadioFault>)
        default_ensures
            r@.len() == 0,
    {
        Vec::new()
    }

    /// What is wrong with the network.
    fn active_network_faults(&self) -> (r: Vec<NetworkFault>)
        default_ensures
            r@.len() == 0,
    {
        Vec::new()
    }

    /// How hard it is working, where it knows.
    fn device_load(&self, ctx: &InteractionContext) -> (r: Option<DeviceLoad>)
        default_ensures
            r is None,
    {
        None
    }

    /// The key for the test commands, where one was provisioned.
    fn enable_key(&self) -> (r: Option<&SymmetricKey>)
        default_ensures
            r is None,
    {
        None
    }

    /// Fires a test event, on a device that just said that it has a key for the test commands; `false`
    /// where it does not know the event.
    fn test_event_trigger(&self, trigger: u64) -> (r: bool)
        requires
            exists|k: &SymmetricKey| #[trigger] call_ensures(Self::enable_key, (self,), Some(k)),
        default_ensures
            !r,
    {
        false
    }

    /// The time of day, in milliseconds, where it is known.
    fn posix_time_ms(&self) -> (r: Option<u64>)
        default_ensures
            r is None,
    {
        None
    }
}

/// A device that knows nothing of itself.
#[derive(Debug, Clone, Copy, PartialEq, Eq, Structural)]
pub struct Unknown;

impl Default for Unknown {
    fn default() -> (d: Self)
        ensures
            d == Unknown,
    {
        Unknown
    }
}

impl Diagnostics for Unknown {

}

/// `NetworkInterfaces`, given the interfaces.
pub open spec fn interfaces_answer(tag: Tag, interfaces: Seq<NetworkInterface>) -> ReadAnswer {
    Ok(tlv::array_bytes(tag, tlv::concat(interfaces, interface_bytes())))
}

/// `RebootCount`, given the count.
pub open spec fn reboots_answer(tag: Tag, count: u16) -> ReadAnswer {
    Ok(tlv::unsigned_bytes(tag, count as u64))
}

/// `UpTime`, given the seconds.
pub open spec fn uptime_answer(tag: Tag, seconds: u64) -> ReadAnswer {
    Ok(tlv::unsigned_bytes(tag, seconds))
}

/// `TotalOperationalHours`, given the hours, which a device may not count.
pub open spec fn hours_answer(tag: Tag, hours: Option<u32>) -> ReadAnswer {
    match hours {
        Some(hours) => Ok(tlv::unsigned_bytes(tag, hours as u64)),
        None => Err(Status::UnsupportedAttribute),
    }
}

/// A value that a number stands for.
pub open spec fn number_answer<T: Numbered>(tag: Tag, v: T) -> ReadAnswer {
    Ok(tlv::unsigned_bytes(tag, v.number()))
}

/// A list of values that numbers stand for.
pub open spec fn numbers_answer<T: Numbered>(tag: Tag, items: Seq<T>) -> ReadAnswer {
    Ok(tlv::numbers_bytes(tag, items))
}

/// `DeviceLoadStatus`, given the load, which a device may not know.
pub open spec fn load_answer(tag: Tag, load: Option<DeviceLoad>) -> ReadAnswer {
    match load {
        Some(load) => Ok(load_bytes(tag, load)),
        None => Err(Status::UnsupportedAttribute),
    }
}

/// `NetworkInterfaces`, given the interfaces.
pub fn encode_interfaces(tag: Tag, interfaces: &Vec<NetworkInterface>) -> (a: Result<Vec<u8>, Status>)
    ensures
        im::read_answer(a) == interfaces_answer(tag, interfaces@),
{
    let mut body: Vec<u8> = Vec::new();
    let mut i: usize = 0;
    proof {
        assert(interfaces@.take(0) =~= Seq::<NetworkInterface>::empty());
        assert(body@ =~= tlv::concat(interfaces@.take(0), interface_bytes()));
    }
    while i < interfaces.len()
        invariant
            i <= interfaces@.len(),
            body@ == tlv::concat(interfaces@.take(i as int), interface_bytes()),
        decreases interfaces.len() - i,
    {
        interfaces[i].encode(&mut body);
        proof {
            tlv::lemma_concat_take(interfaces@, i as int, interface_bytes());
        }
        i = i + 1;
    }
    let mut out: Vec<u8> = Vec::new();
    tlv::put_array(&mut out, tag, &body);
    proof {
        assert(interfaces@.take(i as int) =~= interfaces@);
        assert(out@ =~= tlv::array_bytes(tag, body@));
    }
    Ok(out)
}

/// `DeviceLoadStatus`, given the load, which a device may not know.
pub fn encode_load(tag: Tag, load: Option<DeviceLoad>) -> (a: Result<Vec<u8>, Status>)
    ensures
        im::read_answer(a) == load_answer(tag, load),
{
    match load {
        Some(load) => {
            let mut out: Vec<u8> = Vec::new();
            load.encode(&mut out, tag);
            proof {
                assert(out@ =~= load_bytes(tag, load));
            }
            Ok(out)
        },
        None => Err(Status::UnsupportedAttribute),
    }
}

fn encode_number(tag: Tag, v: u64) -> (out: Vec<u8>)
    ensures
        out@ == tlv::unsigned_bytes(tag, v),
{
    let mut out: Vec<u8> = Vec::new();
    tlv::put_unsigned(&mut out, tag, v);
    proof {
        assert(out@ =~= tlv::unsigned_bytes(tag, v));
    }
    out
}

fn encode_numbers<T: Numbered>(tag: Tag, items: &Vec<T>) -> (a: Result<Vec<u8>, Status>)
    ensures
        im::read_answer(a) == numbers_answer(tag, items@),
{
    let mut out: Vec<u8> = Vec::new();
    tlv::put_numbers(&mut out, tag, items.as_slice());
    proof {
        assert(out@ =~= tlv::numbers_bytes(tag, items@));
    }
    Ok(out)
}

/// The fields of `TestEventTrigger`.
pub open spec fn trigger_slots() -> Seq<Slot> {
    seq![Slot(0, Want::Octets(0, KEY_FIELD_MAX)), Slot(1, Want::Unsigned(u64::MAX))]
}

/// The key and the event of `TestEventTrigger`, or what is wrong with it.
pub open spec fn trigger_request(b: Seq<u8>) -> Result<(Seq<u8>, u64), Status> {
    match walk::walked(b, trigger_slots(), walk::lenient()) {
        Err(status) => Err(status),
        Ok(items) => match (walk::octets(b, items, 0), walk::num(items, 1)) {
            (Some(key), Some(trigger)) => Ok((key, trigger)),
            _ => Err(Status::InvalidCommand),
        },
    }
}

/// The fields of `PayloadTestRequest`.
pub open spec fn payload_slots() -> Seq<Slot> {
    seq![
        Slot(0, Want::Octets(0, KEY_FIELD_MAX)),
        Slot(1, Want::Unsigned(0xFF)),
        Slot(2, Want::Unsigned(PAYLOAD_TEST_MAX as u64)),
    ]
}

/// The key, the octet and the count of `PayloadTestRequest`, or what is wrong with it.
pub open spec fn payload_request(b: Seq<u8>) -> Result<(Seq<u8>, u8, u16), Status> {
    match walk::walked(b, payload_slots(), walk::lenient()) {
        Err(status) => Err(status),
        Ok(items) => match (walk::octets(b, items, 0), walk::num(items, 1), walk::num(items, 2)) {
            (Some(key), Some(value), Some(count)) => Ok((key, value as u8, count as u16)),
            _ => Err(Status::InvalidCommand),
        },
    }
}

fn decode_trigger(data: &[u8]) -> (r: Result<(&[u8], u64), Status>)
    ensures
        match r {
            Ok((key, trigger)) => trigger_request(data@) == Ok::<(Seq<u8>, u64), Status>((key@, trigger)),
            Err(status) => trigger_request(data@) == Err::<(Seq<u8>, u64), Status>(status),
        },
{
    let slots: Vec<Slot> = vec![Slot(0, Want::Octets(0, KEY_FIELD_MAX)), Slot(1, Want::Unsigned(u64::MAX))];
    proof {
        assert(slots@ =~= trigger_slots());
    }
    let w: Walked = match walk::walk(data, &slots, Manner::lenient()) {
        Err(status) => return Err(status),
        Ok(w) => w,
    };
    match (w.octets(0), w.num(1)) {
        (Some(key), Some(trigger)) => Ok((key, trigger)),
        _ => Err(Status::InvalidCommand),
    }
}

fn decode_payload_test(data: &[u8]) -> (r: Result<(&[u8], u8, u16), Status>)
    ensures
        match r {
            Ok((key, value, count)) => payload_request(data@) == Ok::<(Seq<u8>, u8, u16), Status>((key@, value, count)),
            Err(status) => payload_request(data@) == Err::<(Seq<u8>, u8, u16), Status>(status),
        },
{
    let slots: Vec<Slot> = vec![
        Slot(0, Want::Octets(0, KEY_FIELD_MAX)),
        Slot(1, Want::Unsigned(0xFF)),
        Slot(2, Want::Unsigned(PAYLOAD_TEST_MAX as u64)),
    ];
    proof {
        assert(slots@ =~= payload_slots());
    }
    let w: Walked = match walk::walk(data, &slots, Manner::lenient()) {
        Err(status) => return Err(status),
        Ok(w) => w,
    };
    match (w.octets(0), w.num(1), w.num(2)) {
        (Some(key), Some(value), Some(count)) => Ok((key, value as u8, count as u16)),
        _ => Err(Status::InvalidCommand),
    }
}

/// Whether octets are all zero, which stands for no key.
pub open spec fn all_zero(s: Seq<u8>) -> bool {
    forall|i: int| 0 <= i < s.len() ==> #[trigger] s[i] == 0
}

fn is_all_zero(s: &[u8]) -> (r: bool)
    ensures
        r == all_zero(s@),
{
    let mut i: usize = 0;
    while i < s.len()
        invariant
            i <= s@.len(),
            forall|j: int| 0 <= j < i ==> #[trigger] s@[j] == 0,
        decreases s.len() - i,
    {
        if s[i] != 0 {
            return false;
        }
        i = i + 1;
    }
    true
}

/// Whether a key opens the test commands: they are on, it is a key and not the one that stands for
/// none, and it is the one that was provisioned.
pub open spec fn opens(enabled: bool, offered: Seq<u8>, configured: Option<Seq<u8>>) -> bool {
    enabled && offered.len() == SYMMETRIC_KEY_LENGTH_BYTES && !all_zero(offered) && configured == Some(offered)
}

/// A key's octets, where there is one.
pub open spec fn key_of(k: Option<&SymmetricKey>) -> Option<Seq<u8>> {
    match k {
        Some(k) => Some(k@),
        None => None,
    }
}

/// Whether a key opens the test commands.
pub fn check_enable_key(enabled: bool, offered: &[u8], configured: Option<&SymmetricKey>) -> (r: bool)
    ensures
        r == opens(enabled, offered@, key_of(configured)),
{
    if !enabled || offered.len() != SYMMETRIC_KEY_LENGTH_BYTES || is_all_zero(offered) {
        return false;
    }
    match configured {
        None => false,
        Some(key) => crypto::ct_eq(offered, key.as_bytes()),
    }
}

/// The answer to `TimeSnapshot`.
pub open spec fn snapshot_bytes(tag: Tag, now: Instant, posix: Option<u64>) -> Seq<u8> {
    tlv::structure_bytes(
        tag,
        tlv::unsigned_bytes(Tag::Context(0), now.micros / 1_000) + tlv::nullable_bytes(Tag::Context(1), posix),
    )
}

/// The answer to `PayloadTestRequest`: one octet, many times.
pub open spec fn payload_bytes(tag: Tag, value: u8, count: u16) -> Seq<u8> {
    tlv::structure_bytes(tag, tlv::octets_bytes(Tag::Context(0), Seq::new(count as nat, |i: int| value)))
}

/// What the device says while a command is carried out.
pub struct Said {
    /// The key for the test commands.
    pub key: Option<Seq<u8>>,
    /// Whether it knew the test event.
    pub fired: bool,
    /// The time of day.
    pub posix: Option<u64>,
}

/// What a command is answered with, given what the device said.
pub open spec fn commanded(
    features: u32,
    enabled: bool,
    command: CommandId,
    data: Option<Seq<u8>>,
    now: Instant,
    said: Said,
    tag: Tag,
) -> InvokeAnswer {
    if command == TEST_EVENT_TRIGGER {
        match data {
            None => im::refused(Status::InvalidCommand),
            Some(b) => match trigger_request(b) {
                Err(status) => im::refused(status),
                Ok((key, _)) => if !opens(enabled, key, said.key) {
                    im::refused(Status::ConstraintError)
                } else if !said.fired {
                    im::refused(Status::InvalidCommand)
                } else {
                    im::done()
                },
            },
        }
    } else if command == TIME_SNAPSHOT {
        Ok((Some(TIME_SNAPSHOT_RESPONSE), snapshot_bytes(tag, now, said.posix)))
    } else if command == PAYLOAD_TEST_REQUEST {
        if features & FEATURE_DATA_MODEL_TEST == 0 {
            im::refused(Status::UnsupportedCommand)
        } else {
            match data {
                None => im::refused(Status::InvalidCommand),
                Some(b) => match payload_request(b) {
                    Err(status) => im::refused(status),
                    Ok((key, value, count)) => if !opens(enabled, key, said.key) {
                        im::refused(Status::ConstraintError)
                    } else {
                        Ok((Some(PAYLOAD_TEST_RESPONSE), payload_bytes(tag, value, count)))
                    },
                },
            }
        }
    } else {
        im::refused(Status::UnsupportedCommand)
    }
}

/// The answer to `TimeSnapshot`, given the time of day.
pub fn snapshot(tag: Tag, now: Instant, posix: Option<u64>) -> (out: Vec<u8>)
    ensures
        out@ == snapshot_bytes(tag, now, posix),
{
    let mut body: Vec<u8> = Vec::new();
    tlv::put_unsigned(&mut body, Tag::Context(0), now.as_millis());
    tlv::put_nullable(&mut body, Tag::Context(1), posix);
    let mut out: Vec<u8> = Vec::new();
    tlv::put_structure(&mut out, tag, &body);
    proof {
        assert(body@ =~= tlv::unsigned_bytes(Tag::Context(0), now.micros / 1_000) + tlv::nullable_bytes(
            Tag::Context(1),
            posix,
        ));
        assert(out@ =~= snapshot_bytes(tag, now, posix));
    }
    out
}

/// The answer to `PayloadTestRequest`.
pub fn payload(tag: Tag, value: u8, count: u16) -> (out: Vec<u8>)
    ensures
        out@ == payload_bytes(tag, value, count),
{
    let mut filled: Vec<u8> = Vec::new();
    let mut i: u16 = 0;
    while i < count
        invariant
            i <= count,
            filled@ == Seq::new(i as nat, |k: int| value),
        decreases count - i,
    {
        filled.push(value);
        i = i + 1;
        proof {
            assert(filled@ =~= Seq::new(i as nat, |k: int| value));
        }
    }
    let mut body: Vec<u8> = Vec::new();
    tlv::put_octets(&mut body, Tag::Context(0), filled.as_slice());
    let mut out: Vec<u8> = Vec::new();
    tlv::put_structure(&mut out, tag, &body);
    proof {
        assert(filled@ =~= Seq::new(count as nat, |i: int| value));
        assert(body@ =~= tlv::octets_bytes(Tag::Context(0), filled@));
        assert(out@ =~= payload_bytes(tag, value, count));
    }
    out
}

/// General Diagnostics over a device.
pub struct GeneralDiagnostics<'a, D: Diagnostics> {
    /// The device, with the test events that it was told to fire.
    pub device: Recorded<'a, D>,
    /// The features.
    pub features: u32,
    /// `TestEventTriggersEnabled`.
    pub triggers_enabled: bool,
}

impl<'a, D: Diagnostics> GeneralDiagnostics<'a, D> {
    /// A cluster over a device; the test commands are on where it has a key for them.
    pub fn new(device: &'a D, features: u32) -> (c: Self)
        ensures
            c.features == features,
            c.device.product() == device,
            c.device.tests() == Seq::<(u64, bool)>::empty(),
            exists|k: Option<&SymmetricKey>| #[trigger]
                call_ensures(D::enable_key, (device,), k) && c.triggers_enabled == (k is Some),
    {
        GeneralDiagnostics::provisioned(device, features, device.enable_key())
    }

    /// The same, given the key.
    pub fn provisioned(device: &'a D, features: u32, key: Option<&SymmetricKey>) -> (c: Self)
        ensures
            c.device.product() == device,
            c.device.tests() == Seq::<(u64, bool)>::empty(),
            c.features == features,
            c.triggers_enabled == (key is Some),
    {
        GeneralDiagnostics { device: Recorded::new(device), features, triggers_enabled: key.is_some() }
    }

    /// Whether the test commands are on.
    pub fn triggers_enabled(&self) -> (r: bool)
        ensures
            r == self.triggers_enabled,
    {
        self.triggers_enabled
    }

    /// Turns the test commands on or off; on needs a key.
    pub fn set_triggers_enabled(&mut self, enabled: bool) -> (r: Result<(), Status>)
        ensures
            match r {
                Ok(_) => *final(self) == (GeneralDiagnostics { triggers_enabled: enabled, ..*old(self) }),
                Err(status) => enabled && status == Status::ConstraintError && *final(self) == *old(self),
            },
            exists|k: Option<&SymmetricKey>| #[trigger]
                call_ensures(D::enable_key, (old(self).device.product(),), k) && (r is Ok) == (!enabled || k is Some),
    {
        let key: Option<&SymmetricKey> = self.device.enable_key();
        self.turn_triggers(enabled, key.is_some())
    }

    /// The same, given whether there is a key.
    pub fn turn_triggers(&mut self, enabled: bool, provisioned: bool) -> (r: Result<(), Status>)
        ensures
            (r is Ok) == (!enabled || provisioned),
            match r {
                Ok(_) => *final(self) == (GeneralDiagnostics { triggers_enabled: enabled, ..*old(self) }),
                Err(status) => status == Status::ConstraintError && *final(self) == *old(self),
            },
    {
        if enabled && !provisioned {
            return Err(Status::ConstraintError);
        }
        self.triggers_enabled = enabled;
        Ok(())
    }
}

/// The cluster's definition.
pub open spec fn defined() -> DefinitionModel {
    DefinitionModel {
        id: ID,
        revision: REVISION,
        features: FEATURE_DATA_MODEL_TEST,
        attributes: seq![
            conformance::reads(NETWORK_INTERFACES, Conformance::Mandatory),
            conformance::reads(REBOOT_COUNT, Conformance::Mandatory),
            conformance::reads(UP_TIME, Conformance::Mandatory),
            conformance::reads(TOTAL_OPERATIONAL_HOURS, Conformance::Optional),
            conformance::reads(BOOT_REASON, Conformance::Optional),
            conformance::reads(ACTIVE_HARDWARE_FAULTS, Conformance::Optional),
            conformance::reads(ACTIVE_RADIO_FAULTS, Conformance::Optional),
            conformance::reads(ACTIVE_NETWORK_FAULTS, Conformance::Optional),
            conformance::reads(TEST_EVENT_TRIGGERS_ENABLED, Conformance::Mandatory),
            conformance::reads(DEVICE_LOAD_STATUS, Conformance::Optional),
        ],
        commands: seq![
            conformance::invokes(TEST_EVENT_TRIGGER, Privilege::Manage, None, Conformance::Mandatory),
            conformance::invokes(TIME_SNAPSHOT, Privilege::Operate, Some(TIME_SNAPSHOT_RESPONSE), Conformance::Mandatory),
            conformance::invokes(
                PAYLOAD_TEST_REQUEST,
                Privilege::Manage,
                Some(PAYLOAD_TEST_RESPONSE),
                Conformance::With(FEATURE_DATA_MODEL_TEST),
            ),
        ],
        generated: seq![
            (TIME_SNAPSHOT_RESPONSE, Conformance::Mandatory),
            (PAYLOAD_TEST_RESPONSE, Conformance::With(FEATURE_DATA_MODEL_TEST)),
        ],
        events: seq![
            conformance::tells(HARDWARE_FAULT_CHANGE, EventPriority::Critical, Conformance::Optional),
            conformance::tells(RADIO_FAULT_CHANGE, EventPriority::Critical, Conformance::Optional),
            conformance::tells(NETWORK_FAULT_CHANGE, EventPriority::Critical, Conformance::Optional),
            conformance::tells(BOOT_REASON_EVENT, EventPriority::Critical, Conformance::Mandatory),
        ],
    }
}

/// The cluster's definition.
pub fn definition() -> (d: Definition)
    ensures
        d@ == defined(),
{
    let d: Definition = Definition {
        id: ID,
        revision: REVISION,
        features: FEATURE_DATA_MODEL_TEST,
        attributes: vec![
            conformance::readable(NETWORK_INTERFACES, Conformance::Mandatory),
            conformance::readable(REBOOT_COUNT, Conformance::Mandatory),
            conformance::readable(UP_TIME, Conformance::Mandatory),
            conformance::readable(TOTAL_OPERATIONAL_HOURS, Conformance::Optional),
            conformance::readable(BOOT_REASON, Conformance::Optional),
            conformance::readable(ACTIVE_HARDWARE_FAULTS, Conformance::Optional),
            conformance::readable(ACTIVE_RADIO_FAULTS, Conformance::Optional),
            conformance::readable(ACTIVE_NETWORK_FAULTS, Conformance::Optional),
            conformance::readable(TEST_EVENT_TRIGGERS_ENABLED, Conformance::Mandatory),
            conformance::readable(DEVICE_LOAD_STATUS, Conformance::Optional),
        ],
        commands: vec![
            conformance::invocable(TEST_EVENT_TRIGGER, Privilege::Manage, None, Conformance::Mandatory),
            conformance::invocable(TIME_SNAPSHOT, Privilege::Operate, Some(TIME_SNAPSHOT_RESPONSE), Conformance::Mandatory),
            conformance::invocable(
                PAYLOAD_TEST_REQUEST,
                Privilege::Manage,
                Some(PAYLOAD_TEST_RESPONSE),
                Conformance::With(FEATURE_DATA_MODEL_TEST),
            ),
        ],
        generated: vec![
            (TIME_SNAPSHOT_RESPONSE, Conformance::Mandatory),
            (PAYLOAD_TEST_RESPONSE, Conformance::With(FEATURE_DATA_MODEL_TEST)),
        ],
        events: vec![
            conformance::event(HARDWARE_FAULT_CHANGE, EventPriority::Critical, Conformance::Optional),
            conformance::event(RADIO_FAULT_CHANGE, EventPriority::Critical, Conformance::Optional),
            conformance::event(NETWORK_FAULT_CHANGE, EventPriority::Critical, Conformance::Optional),
            conformance::event(BOOT_REASON_EVENT, EventPriority::Critical, Conformance::Mandatory),
        ],
    };
    proof {
        assert(d@.attributes =~= defined().attributes);
        assert(d@.commands =~= defined().commands);
        assert(d@.generated =~= defined().generated);
        assert(d@.events =~= defined().events);
    }
    d
}

/// Everything that a product can choose.
pub fn all_optional() -> (o: Optional)
    ensures
        o@ == (OptionalModel {
            attributes: seq![
                TOTAL_OPERATIONAL_HOURS,
                BOOT_REASON,
                ACTIVE_HARDWARE_FAULTS,
                ACTIVE_RADIO_FAULTS,
                ACTIVE_NETWORK_FAULTS,
                DEVICE_LOAD_STATUS,
            ],
            commands: Seq::empty(),
            events: seq![HARDWARE_FAULT_CHANGE, RADIO_FAULT_CHANGE, NETWORK_FAULT_CHANGE],
        }),
{
    let o: Optional = Optional {
        attributes: vec![
            TOTAL_OPERATIONAL_HOURS,
            BOOT_REASON,
            ACTIVE_HARDWARE_FAULTS,
            ACTIVE_RADIO_FAULTS,
            ACTIVE_NETWORK_FAULTS,
            DEVICE_LOAD_STATUS,
        ],
        commands: Vec::new(),
        events: vec![HARDWARE_FAULT_CHANGE, RADIO_FAULT_CHANGE, NETWORK_FAULT_CHANGE],
    };
    proof {
        assert(o@.attributes =~= seq![
            TOTAL_OPERATIONAL_HOURS,
            BOOT_REASON,
            ACTIVE_HARDWARE_FAULTS,
            ACTIVE_RADIO_FAULTS,
            ACTIVE_NETWORK_FAULTS,
            DEVICE_LOAD_STATUS,
        ]);
        assert(o@.events =~= seq![HARDWARE_FAULT_CHANGE, RADIO_FAULT_CHANGE, NETWORK_FAULT_CHANGE]);
    }
    o
}

/// The description for features and for what the product chooses.
pub fn conforming(features: u32, optional: &Optional) -> (r: Result<Conforming, ErrorCode>)
    ensures
        conformance::outcome(r) == conformance::conform(defined(), features, optional@),
{
    Conforming::new(&definition(), features, optional)
}

/// The test event that a command fires, where the key that it offers opens that.
pub open spec fn fires(triggers_enabled: bool, command: CommandId, data: Option<Seq<u8>>, said: Said) -> Option<u64> {
    match data {
        Some(b) => match trigger_request(b) {
            Ok((key, trigger)) => if command == TEST_EVENT_TRIGGER && opens(triggers_enabled, key, said.key) {
                Some(trigger)
            } else {
                None
            },
            Err(_) => None,
        },
        None => None,
    }
}

/// The key that a command offers, where it is one that needs a key.
pub open spec fn offered(features: u32, command: CommandId, data: Option<Seq<u8>>) -> Option<Seq<u8>> {
    match data {
        None => None,
        Some(b) => if command == TEST_EVENT_TRIGGER {
            match trigger_request(b) {
                Ok((key, _)) => Some(key),
                Err(_) => None,
            }
        } else if command == PAYLOAD_TEST_REQUEST && features & FEATURE_DATA_MODEL_TEST != 0 {
            match payload_request(b) {
                Ok((key, _, _)) => Some(key),
                Err(_) => None,
            }
        } else {
            None
        },
    }
}

impl<'a, D: Diagnostics> GeneralDiagnostics<'a, D> {
    /// Whether the device, asked what a command needs to know, may say this: its key where one is
    /// offered, whether it knows the test event where the key opens it, and the time of day where
    /// that is wanted.
    pub open spec fn says(&self, command: CommandId, data: Option<Seq<u8>>, said: Said) -> bool {
        &&& offered(self.features, command, data) is Some ==> exists|k: Option<&SymmetricKey>| #[trigger]
            call_ensures(D::enable_key, (self.device.product(),), k) && said.key == key_of(k)
        &&& fires(self.triggers_enabled, command, data, said) matches Some(trigger) ==> call_ensures(
            D::test_event_trigger,
            (self.device.product(), trigger),
            said.fired,
        )
        &&& command == TIME_SNAPSHOT ==> call_ensures(D::posix_time_ms, (self.device.product(),), said.posix)
    }
}

impl<'a, D: Diagnostics> Cluster for GeneralDiagnostics<'a, D> {
    const ID: ClusterId = ID;
}

impl<'a, D: Diagnostics> ClusterHandler for GeneralDiagnostics<'a, D> {
    open spec fn answers(&self, resolved: Resolved, ctx: InteractionContext, tag: Tag, a: ReadAnswer) -> bool {
        let id = resolved.attribute;
        if id == NETWORK_INTERFACES {
            exists|v: Vec<NetworkInterface<'_>>| #[trigger]
                call_ensures(D::network_interfaces, (self.device.product(),), v) && a == interfaces_answer(tag, v@)
        } else if id == REBOOT_COUNT {
            exists|v: u16| #[trigger] call_ensures(D::reboot_count, (self.device.product(),), v) && a == reboots_answer(tag, v)
        } else if id == UP_TIME {
            exists|v: u64| #[trigger] call_ensures(D::up_time, (self.device.product(),), v) && a == uptime_answer(tag, v)
        } else if id == TOTAL_OPERATIONAL_HOURS {
            exists|v: Option<u32>| #[trigger]
                call_ensures(D::total_operational_hours, (self.device.product(),), v) && a == hours_answer(tag, v)
        } else if id == BOOT_REASON {
            exists|v: BootReason| #[trigger] call_ensures(D::boot_reason, (self.device.product(),), v) && a == number_answer(tag, v)
        } else if id == ACTIVE_HARDWARE_FAULTS {
            exists|v: Vec<HardwareFault>| #[trigger]
                call_ensures(D::active_hardware_faults, (self.device.product(),), v) && a == numbers_answer(tag, v@)
        } else if id == ACTIVE_RADIO_FAULTS {
            exists|v: Vec<RadioFault>| #[trigger]
                call_ensures(D::active_radio_faults, (self.device.product(),), v) && a == numbers_answer(tag, v@)
        } else if id == ACTIVE_NETWORK_FAULTS {
            exists|v: Vec<NetworkFault>| #[trigger]
                call_ensures(D::active_network_faults, (self.device.product(),), v) && a == numbers_answer(tag, v@)
        } else if id == TEST_EVENT_TRIGGERS_ENABLED {
            a == Ok::<Seq<u8>, Status>(tlv::bool_bytes(tag, self.triggers_enabled))
        } else if id == DEVICE_LOAD_STATUS {
            exists|v: Option<DeviceLoad>| #[trigger]
                call_ensures(D::device_load, (self.device.product(), &ctx), v) && a == load_answer(tag, v)
        } else {
            a == Err::<Seq<u8>, Status>(Status::UnsupportedAttribute)
        }
    }

    open spec fn writes(
        before: &Self,
        after: &Self,
        resolved: Resolved,
        data: Seq<u8>,
        op: WriteOp,
        ctx: InteractionContext,
        r: Result<(), Status>,
    ) -> bool {
        *after == *before && r == Err::<(), Status>(Status::UnsupportedWrite)
    }

    open spec fn invokes(
        before: &Self,
        after: &Self,
        resolved: ResolvedCommand,
        fields: Option<Seq<u8>>,
        ctx: InteractionContext,
        tag: Tag,
        a: InvokeAnswer,
    ) -> bool {
        &&& after.features == before.features
        &&& after.triggers_enabled == before.triggers_enabled
        &&& exists|said: Said|
            {
                &&& before.says(resolved.command, fields, said)
                &&& a == #[trigger] commanded(
                    before.features,
                    before.triggers_enabled,
                    resolved.command,
                    fields,
                    ctx.now,
                    said,
                    tag,
                )
                &&& match fires(before.triggers_enabled, resolved.command, fields, said) {
                    Some(trigger) => after.device.tested(&before.device, trigger, said.fired),
                    None => after.device == before.device,
                }
            }
    }

    open spec fn outlives(before: &Self, after: &Self, event: Lifecycle) -> bool {
        *after == *before
    }

    open spec fn unfit(&self, resolved: ResolvedCommand) -> Status {
        overflow(resolved.command)
    }

    fn answer(&self, resolved: &Resolved, ctx: &InteractionContext, tag: Tag) -> (a: Result<Vec<u8>, Status>) {
        match resolved.attribute {
            NETWORK_INTERFACES => {
                let v: Vec<NetworkInterface> = self.device.network_interfaces();
                encode_interfaces(tag, &v)
            },
            REBOOT_COUNT => {
                let v: u16 = self.device.reboot_count();
                Ok(encode_number(tag, v as u64))
            },
            UP_TIME => {
                let v: u64 = self.device.up_time();
                Ok(encode_number(tag, v))
            },
            TOTAL_OPERATIONAL_HOURS => {
                let v: Option<u32> = self.device.total_operational_hours();
                match v {
                    None => Err(Status::UnsupportedAttribute),
                    Some(hours) => Ok(encode_number(tag, hours as u64)),
                }
            },
            BOOT_REASON => {
                let v: BootReason = self.device.boot_reason();
                Ok(encode_number(tag, v.as_number()))
            },
            ACTIVE_HARDWARE_FAULTS => {
                let v: Vec<HardwareFault> = self.device.active_hardware_faults();
                encode_numbers(tag, &v)
            },
            ACTIVE_RADIO_FAULTS => {
                let v: Vec<RadioFault> = self.device.active_radio_faults();
                encode_numbers(tag, &v)
            },
            ACTIVE_NETWORK_FAULTS => {
                let v: Vec<NetworkFault> = self.device.active_network_faults();
                encode_numbers(tag, &v)
            },
            TEST_EVENT_TRIGGERS_ENABLED => {
                let mut out: Vec<u8> = Vec::new();
                tlv::put_bool(&mut out, tag, self.triggers_enabled);
                proof {
                    assert(out@ =~= tlv::bool_bytes(tag, self.triggers_enabled));
                }
                Ok(out)
            },
            DEVICE_LOAD_STATUS => {
                let v: Option<DeviceLoad> = self.device.device_load(ctx);
                encode_load(tag, v)
            },
            _ => Err(Status::UnsupportedAttribute),
        }
    }

    fn write(&mut self, resolved: &Resolved, data: &[u8], op: WriteOp, ctx: &InteractionContext) -> (r: Result<(), Status>) {
        Err(Status::UnsupportedWrite)
    }

    fn perform(
        &mut self,
        resolved: &ResolvedCommand,
        fields: Option<&[u8]>,
        ctx: &InteractionContext,
        tag: Tag,
    ) -> (a: Result<Reply, StatusIb>) {
        let ghost mut said = Said { key: None, fired: false, posix: None };
        let a: Result<Reply, StatusIb> = match resolved.command {
            TEST_EVENT_TRIGGER => match fields {
                None => im::refuse(Status::InvalidCommand),
                Some(data) => match decode_trigger(data) {
                    Err(status) => im::refuse(status),
                    Ok((key, trigger)) => {
                        let configured: Option<&SymmetricKey> = self.device.enable_key();
                        proof {
                            said = Said { key: key_of(configured), fired: false, posix: None };
                        }
                        if !check_enable_key(self.triggers_enabled, key, configured) {
                            im::refuse(Status::ConstraintError)
                        } else {
                            let fired: bool = self.device.test_event_trigger(trigger);
                            proof {
                                said = Said { key: key_of(configured), fired, posix: None };
                            }
                            if fired {
                                im::no_response()
                            } else {
                                im::refuse(Status::InvalidCommand)
                            }
                        }
                    },
                },
            },
            TIME_SNAPSHOT => {
                let posix: Option<u64> = self.device.posix_time_ms();
                proof {
                    said = Said { key: None, fired: false, posix };
                }
                im::respond(TIME_SNAPSHOT_RESPONSE, snapshot(tag, ctx.now, posix))
            },
            PAYLOAD_TEST_REQUEST => if self.features & FEATURE_DATA_MODEL_TEST == 0 {
                im::refuse(Status::UnsupportedCommand)
            } else {
                match fields {
                    None => im::refuse(Status::InvalidCommand),
                    Some(data) => match decode_payload_test(data) {
                        Err(status) => im::refuse(status),
                        Ok((key, value, count)) => {
                            let configured: Option<&SymmetricKey> = self.device.enable_key();
                            proof {
                                said = Said { key: key_of(configured), fired: false, posix: None };
                            }
                            if !check_enable_key(self.triggers_enabled, key, configured) {
                                im::refuse(Status::ConstraintError)
                            } else {
                                im::respond(PAYLOAD_TEST_RESPONSE, payload(tag, value, count))
                            }
                        },
                    },
                }
            },
            _ => im::refuse(Status::UnsupportedCommand),
        };
        proof {
            assert(old(self).says(resolved.command, im::octets(fields), said));
            assert(im::invoke_answer(a) == commanded(
                self.features,
                self.triggers_enabled,
                resolved.command,
                im::octets(fields),
                ctx.now,
                said,
                tag,
            ));
        }
        a
    }

    fn on_lifecycle(&mut self, event: Lifecycle) {
    }

    fn unfit_status(&self, resolved: &ResolvedCommand) -> (s: Status) {
        match resolved.command {
            PAYLOAD_TEST_REQUEST => Status::ResourceExhausted,
            _ => Status::Failure,
        }
    }
}

/// What a response that does not fit is answered with.
pub open spec fn overflow(command: CommandId) -> Status {
    if command == PAYLOAD_TEST_REQUEST {
        Status::ResourceExhausted
    } else {
        Status::Failure
    }
}

/// A product without a key never fires a test event and never sends a payload.
pub proof fn law_without_a_key_nothing_is_tested(
    features: u32,
    enabled: bool,
    command: CommandId,
    data: Option<Seq<u8>>,
    now: Instant,
    said: Said,
    tag: Tag,
)
    requires
        command == TEST_EVENT_TRIGGER || command == PAYLOAD_TEST_REQUEST,
        said.key is None || !enabled,
    ensures
        commanded(features, enabled, command, data, now, said, tag) is Err,
        fires(enabled, command, data, said) is None,
{
}

/// A wrong key and no key are answered alike, and neither fires a test event.
pub proof fn law_a_wrong_key_looks_like_no_key(
    features: u32,
    enabled: bool,
    command: CommandId,
    data: Option<Seq<u8>>,
    now: Instant,
    said: Said,
    tag: Tag,
)
    requires
        data matches Some(b) && (trigger_request(b) matches Ok((key, _)) ==> said.key != Some(key)) && (payload_request(b)
            matches Ok((key, _, _)) ==> said.key != Some(key)),
    ensures
        commanded(features, enabled, command, data, now, said, tag) == commanded(
            features,
            enabled,
            command,
            data,
            now,
            Said { key: None, ..said },
            tag,
        ),
        fires(enabled, command, data, said) is None,
{
}

/// The octets that stand for no key open nothing, even where they were provisioned.
pub proof fn law_the_zero_key_opens_nothing(enabled: bool, offered: Seq<u8>, configured: Option<Seq<u8>>)
    requires
        all_zero(offered),
    ensures
        !opens(enabled, offered, configured),
{
}

/// `TestEventTrigger` fires the event that it names, once, and `PayloadTestRequest` is answered with the octet that it names, as
/// often as it says, exactly where the test commands are on and it brings the sixteen octets of the key that was provisioned,
/// which are not all zero; and otherwise they break a constraint and fire nothing.
pub proof fn law_the_key_opens_the_tests<'a, D: Diagnostics>(
    before: GeneralDiagnostics<'a, D>,
    after: GeneralDiagnostics<'a, D>,
    resolved: ResolvedCommand,
    b: Seq<u8>,
    ctx: InteractionContext,
    tag: Tag,
    a: InvokeAnswer,
)
    requires
        GeneralDiagnostics::invokes(&before, &after, resolved, Some(b), ctx, tag, a),
    ensures
        resolved.command == 0x00 ==> match walk::walked(
            b,
            seq![Slot(0, Want::Octets(0, 32)), Slot(1, Want::Unsigned(u64::MAX))],
            walk::lenient(),
        ) {
            Err(status) => a == im::refused(status) && after.device == before.device,
            Ok(items) => match (walk::octets(b, items, 0), walk::num(items, 1)) {
                (Some(key), Some(event)) => exists|k: Option<&SymmetricKey>|
                    {
                        let fits = before.triggers_enabled && key.len() == 16 && k is Some && k->Some_0@ == key && exists|i: int|
                            0 <= i < 16 && #[trigger] key[i] != 0;
                        &&& #[trigger] call_ensures(D::enable_key, (before.device.product(),), k)
                        &&& !fits ==> a == im::refused(Status::ConstraintError) && after.device == before.device
                        &&& fits ==> exists|fired: bool|
                            {
                                &&& #[trigger] call_ensures(D::test_event_trigger, (before.device.product(), event), fired)
                                &&& after.device.tests() == before.device.tests().push((event, fired))
                                &&& a == (if fired { im::done() } else { im::refused(Status::InvalidCommand) })
                            }
                    },
                _ => a == im::refused(Status::InvalidCommand) && after.device == before.device,
            },
        },
        resolved.command == 0x03 ==> after.device == before.device && if before.features & 1 == 0 {
            a == im::refused(Status::UnsupportedCommand)
        } else {
            match walk::walked(
                b,
                seq![Slot(0, Want::Octets(0, 32)), Slot(1, Want::Unsigned(0xFF)), Slot(2, Want::Unsigned(2048))],
                walk::lenient(),
            ) {
                Err(status) => a == im::refused(status),
                Ok(items) => match (walk::octets(b, items, 0), walk::num(items, 1), walk::num(items, 2)) {
                    (Some(key), Some(octet), Some(count)) => exists|k: Option<&SymmetricKey>|
                        {
                            let fits = before.triggers_enabled && key.len() == 16 && k is Some && k->Some_0@ == key && exists|
                                i: int,
                            |
                                0 <= i < 16 && #[trigger] key[i] != 0;
                            &&& #[trigger] call_ensures(D::enable_key, (before.device.product(),), k)
                            &&& !fits ==> a == im::refused(Status::ConstraintError)
                            &&& fits ==> exists|payload: Seq<u8>|
                                {
                                    &&& payload.len() == count as u16 && forall|i: int|
                                        0 <= i < payload.len() ==> #[trigger] payload[i] == octet as u8
                                    &&& a == Ok::<(Option<CommandId>, Seq<u8>), StatusIb>(
                                        (Some(0x04), tlv::structure_bytes(tag, #[trigger] tlv::octets_bytes(Tag::Context(0), payload))),
                                    )
                                }
                        },
                    _ => a == im::refused(Status::InvalidCommand),
                },
            }
        },
{
    assert(trigger_slots() =~= seq![Slot(0, Want::Octets(0, 32)), Slot(1, Want::Unsigned(u64::MAX))]);
    assert(payload_slots() =~= seq![
        Slot(0, Want::Octets(0, 32)),
        Slot(1, Want::Unsigned(0xFF)),
        Slot(2, Want::Unsigned(2048)),
    ]);
    if resolved.command == 0x03 {
        if let Ok((key, value, count)) = payload_request(b) {
            let p = Seq::new(count as nat, |i: int| value);
            assert(p.len() == count);
            let shown = tlv::octets_bytes(Tag::Context(0), p);
        }
    }
}

/// `TimeSnapshot` is answered with the milliseconds since the node started, and with the time of day where it is known.
pub proof fn law_a_snapshot_tells_the_time<'a, D: Diagnostics>(
    before: GeneralDiagnostics<'a, D>,
    after: GeneralDiagnostics<'a, D>,
    resolved: ResolvedCommand,
    data: Option<Seq<u8>>,
    ctx: InteractionContext,
    tag: Tag,
    a: InvokeAnswer,
)
    requires
        GeneralDiagnostics::invokes(&before, &after, resolved, data, ctx, tag, a),
        resolved.command == 0x01,
    ensures
        after.device == before.device,
        exists|posix: Option<u64>, millis: u64|
            {
                &&& #[trigger] call_ensures(D::posix_time_ms, (before.device.product(),), posix)
                &&& millis * 1000 <= ctx.now.micros < millis * 1000 + 1000
                &&& a == Ok::<(Option<CommandId>, Seq<u8>), StatusIb>(
                    (
                        Some(0x02),
                        tlv::structure_bytes(
                            tag,
                            #[trigger] tlv::unsigned_bytes(Tag::Context(0), millis) + match posix {
                                Some(t) => tlv::unsigned_bytes(Tag::Context(1), t),
                                None => tlv::null_bytes(Tag::Context(1)),
                            },
                        ),
                    ),
                )
            },
{
    let millis = (ctx.now.micros / 1_000) as u64;
    let shown = tlv::unsigned_bytes(Tag::Context(0), millis);
}

/// An interface is shown with everything that is known of it, with its first four IPv4 addresses and its first eight IPv6
/// addresses.
pub proof fn law_an_interface_is_shown<'a>(i: NetworkInterface<'a>)
    ensures
        forall|x: [u8; 4]| #[trigger] ipv4_bytes()(x) == tlv::octets_bytes(Tag::Anonymous, x@),
        forall|x: [u8; 16]| #[trigger] ipv6_bytes()(x) == tlv::octets_bytes(Tag::Anonymous, x@),
        exists|four: Seq<[u8; 4]>, six: Seq<[u8; 16]>|
            {
                &&& four.is_prefix_of(i.ipv4_addresses@) && four.len() == (if i.ipv4_addresses@.len() <= 4 {
                    i.ipv4_addresses@.len()
                } else {
                    4
                })
                &&& six.is_prefix_of(i.ipv6_addresses@) && six.len() == (if i.ipv6_addresses@.len() <= 8 {
                    i.ipv6_addresses@.len()
                } else {
                    8
                })
                &&& interface_bytes()(i) == tlv::structure_bytes(
                    Tag::Anonymous,
                    tlv::text_bytes(Tag::Context(0), i.name@) + tlv::bool_bytes(Tag::Context(1), i.is_operational) + (
                    match i.off_premise_ipv4 {
                        Some(v) => tlv::bool_bytes(Tag::Context(2), v),
                        None => tlv::null_bytes(Tag::Context(2)),
                    }) + (match i.off_premise_ipv6 {
                        Some(v) => tlv::bool_bytes(Tag::Context(3), v),
                        None => tlv::null_bytes(Tag::Context(3)),
                    }) + tlv::octets_bytes(Tag::Context(4), i.hardware_address@) + tlv::array_bytes(
                        Tag::Context(5),
                        #[trigger] tlv::concat(four, ipv4_bytes()),
                    ) + tlv::array_bytes(
                        Tag::Context(6),
                        #[trigger] tlv::concat(six, ipv6_bytes()),
                    ) + tlv::unsigned_bytes(
                        Tag::Context(7),
                        match i.interface_type {
                            InterfaceType::Unspecified => 0,
                            InterfaceType::WiFi => 1,
                            InterfaceType::Ethernet => 2,
                            InterfaceType::Cellular => 3,
                            InterfaceType::Thread => 4,
                        },
                    ),
                )
            },
{
    let four = bounded::leading(i.ipv4_addresses@, 4);
    let six = bounded::leading(i.ipv6_addresses@, 8);
    let f = tlv::concat(four, ipv4_bytes());
    let s = tlv::concat(six, ipv6_bytes());
}

/// The numbers that faults and reasons stand for on the wire.
pub open spec fn hardware_number() -> spec_fn(HardwareFault) -> Seq<u8> {
    |f: HardwareFault|
        tlv::unsigned_bytes(
            Tag::Anonymous,
            match f {
                HardwareFault::Unspecified => 0,
                HardwareFault::Radio => 1,
                HardwareFault::Sensor => 2,
                HardwareFault::ResettableOverTemp => 3,
                HardwareFault::NonResettableOverTemp => 4,
                HardwareFault::PowerSource => 5,
                HardwareFault::VisualDisplayFault => 6,
                HardwareFault::AudioOutputFault => 7,
                HardwareFault::UserInterfaceFault => 8,
                HardwareFault::NonVolatileMemoryError => 9,
                HardwareFault::TamperDetected => 10,
            },
        )
}

/// The number that a radio's fault stands for.
pub open spec fn radio_number() -> spec_fn(RadioFault) -> Seq<u8> {
    |f: RadioFault|
        tlv::unsigned_bytes(
            Tag::Anonymous,
            match f {
                RadioFault::Unspecified => 0,
                RadioFault::WiFiFault => 1,
                RadioFault::CellularFault => 2,
                RadioFault::ThreadFault => 3,
                RadioFault::NfcFault => 4,
                RadioFault::BleFault => 5,
                RadioFault::EthernetFault => 6,
            },
        )
}

/// The number that a network's fault stands for.
pub open spec fn network_number() -> spec_fn(NetworkFault) -> Seq<u8> {
    |f: NetworkFault|
        tlv::unsigned_bytes(
            Tag::Anonymous,
            match f {
                NetworkFault::Unspecified => 0,
                NetworkFault::HardwareFailure => 1,
                NetworkFault::NetworkJammed => 2,
                NetworkFault::ConnectionFailed => 3,
            },
        )
}

/// What a read shows is what the device says: every interface, how often and why it started, for how long it runs, every fault,
/// and how hard it works.
pub proof fn law_the_device_is_read_as_it_is<'a, D: Diagnostics>(
    c: GeneralDiagnostics<'a, D>,
    resolved: Resolved,
    ctx: InteractionContext,
    tag: Tag,
    a: ReadAnswer,
)
    requires
        c.answers(resolved, ctx, tag, a),
    ensures
        resolved.attribute == 0x0000 ==> exists|v: Vec<NetworkInterface<'_>>| #[trigger]
            call_ensures(D::network_interfaces, (c.device.product(),), v) && a == Ok::<Seq<u8>, Status>(
                tlv::array_bytes(tag, tlv::concat(v@, interface_bytes())),
            ),
        resolved.attribute == 0x0001 ==> exists|v: u16| #[trigger]
            call_ensures(D::reboot_count, (c.device.product(),), v) && a is Ok && tlv::shows_number(a->Ok_0, 0, tag, v as u64),
        resolved.attribute == 0x0002 ==> exists|v: u64| #[trigger]
            call_ensures(D::up_time, (c.device.product(),), v) && a is Ok && tlv::shows_number(a->Ok_0, 0, tag, v),
        resolved.attribute == 0x0003 ==> exists|v: Option<u32>| #[trigger]
            call_ensures(D::total_operational_hours, (c.device.product(),), v) && match v {
                Some(hours) => a is Ok && tlv::shows_number(a->Ok_0, 0, tag, hours as u64),
                None => a == Err::<Seq<u8>, Status>(Status::UnsupportedAttribute),
            },
        resolved.attribute == 0x0004 ==> exists|v: BootReason| #[trigger]
            call_ensures(D::boot_reason, (c.device.product(),), v) && a is Ok && tlv::shows_number(
                a->Ok_0,
                0,
                tag,
                match v {
                    BootReason::Unspecified => 0,
                    BootReason::PowerOnReboot => 1,
                    BootReason::BrownOutReset => 2,
                    BootReason::SoftwareWatchdogReset => 3,
                    BootReason::HardwareWatchdogReset => 4,
                    BootReason::SoftwareUpdateCompleted => 5,
                    BootReason::SoftwareReset => 6,
                },
            ),
        resolved.attribute == 0x0005 ==> exists|v: Vec<HardwareFault>| #[trigger]
            call_ensures(D::active_hardware_faults, (c.device.product(),), v) && a == Ok::<Seq<u8>, Status>(
                tlv::array_bytes(tag, tlv::concat(v@, hardware_number())),
            ),
        resolved.attribute == 0x0006 ==> exists|v: Vec<RadioFault>| #[trigger]
            call_ensures(D::active_radio_faults, (c.device.product(),), v) && a == Ok::<Seq<u8>, Status>(
                tlv::array_bytes(tag, tlv::concat(v@, radio_number())),
            ),
        resolved.attribute == 0x0007 ==> exists|v: Vec<NetworkFault>| #[trigger]
            call_ensures(D::active_network_faults, (c.device.product(),), v) && a == Ok::<Seq<u8>, Status>(
                tlv::array_bytes(tag, tlv::concat(v@, network_number())),
            ),
        resolved.attribute == 0x0008 ==> a == Ok::<Seq<u8>, Status>(tlv::bool_bytes(tag, c.triggers_enabled)),
        resolved.attribute == 0x000A ==> exists|v: Option<DeviceLoad>| #[trigger]
            call_ensures(D::device_load, (c.device.product(), &ctx), v) && match v {
                Some(l) => a == Ok::<Seq<u8>, Status>(
                    tlv::structure_bytes(
                        tag,
                        tlv::unsigned_bytes(Tag::Context(0), l.current_subscriptions as u64) + tlv::unsigned_bytes(
                            Tag::Context(1),
                            l.current_subscriptions_for_fabric as u64,
                        ) + tlv::unsigned_bytes(Tag::Context(2), l.total_subscriptions_established as u64) + tlv::unsigned_bytes(
                            Tag::Context(3),
                            l.total_im_messages_sent as u64,
                        ) + tlv::unsigned_bytes(Tag::Context(4), l.total_im_messages_received as u64),
                    ),
                ),
                None => a == Err::<Seq<u8>, Status>(Status::UnsupportedAttribute),
            },
{
    assert forall|v: u64| tlv::shows_number(#[trigger] tlv::unsigned_bytes(tag, v), 0, tag, v) by {
        tlv::lemma_shows_number(tag, v);
    }
    assert(tlv::item_bytes::<HardwareFault>() =~= hardware_number());
    assert(tlv::item_bytes::<RadioFault>() =~= radio_number());
    assert(tlv::item_bytes::<NetworkFault>() =~= network_number());
}

/// How the cluster describes itself follows from the features and from what the product chooses: each attribute, command and event
/// is there exactly where they say so, with who may read, write or invoke it, and nothing else is.
pub proof fn law_the_cluster_describes_itself(features: u32, o: conformance::OptionalModel, c: crate::dm::ClusterModel)
    requires
        conformance::conform(defined(), features, o) == Ok::<crate::dm::ClusterModel, ErrorCode>(c),
    ensures
        c.id == 0x0033,
        c.revision == 3,
        c.feature_map == features,
        features & !0x01u32 == 0,
        c.attributes.contains(conformance::shown_attribute(0x0000, None)) == (true),
        c.attributes.contains(conformance::shown_attribute(0x0001, None)) == (true),
        c.attributes.contains(conformance::shown_attribute(0x0002, None)) == (true),
        c.attributes.contains(conformance::shown_attribute(0x0003, None)) == (o.attributes.contains(0x0003)),
        c.attributes.contains(conformance::shown_attribute(0x0004, None)) == (o.attributes.contains(0x0004)),
        c.attributes.contains(conformance::shown_attribute(0x0005, None)) == (o.attributes.contains(0x0005)),
        c.attributes.contains(conformance::shown_attribute(0x0006, None)) == (o.attributes.contains(0x0006)),
        c.attributes.contains(conformance::shown_attribute(0x0007, None)) == (o.attributes.contains(0x0007)),
        c.attributes.contains(conformance::shown_attribute(0x0008, None)) == (true),
        c.attributes.contains(conformance::shown_attribute(0x000A, None)) == (o.attributes.contains(0x000A)),
        c.accepted_commands.contains(conformance::shown_command(0x00, Privilege::Manage, false, false, None)) == (true),
        c.accepted_commands.contains(conformance::shown_command(0x01, Privilege::Operate, false, false, Some(0x02u32))) == (true),
        c.accepted_commands.contains(conformance::shown_command(0x03, Privilege::Manage, false, false, Some(0x04u32))) == (features & 0x01 != 0),
        c.events.contains(conformance::shown_event(0x00, EventPriority::Critical)) == (o.events.contains(0x00)),
        c.events.contains(conformance::shown_event(0x01, EventPriority::Critical)) == (o.events.contains(0x01)),
        c.events.contains(conformance::shown_event(0x02, EventPriority::Critical)) == (o.events.contains(0x02)),
        c.events.contains(conformance::shown_event(0x03, EventPriority::Critical)) == (true),
        c.attributes.len() <= 10,
        c.accepted_commands.len() <= 3,
        c.events.len() <= 4,
{
    let d = defined();
    assert(conformance::told_apart(d.attributes));
    assert(conformance::told_apart(d.commands));
    assert(conformance::told_apart(d.events));
    conformance::lemma_described(d.attributes, features, o.attributes, conformance::shown_attribute(0x0000, None), 0);
    conformance::lemma_described(d.attributes, features, o.attributes, conformance::shown_attribute(0x0001, None), 1);
    conformance::lemma_described(d.attributes, features, o.attributes, conformance::shown_attribute(0x0002, None), 2);
    conformance::lemma_described(d.attributes, features, o.attributes, conformance::shown_attribute(0x0003, None), 3);
    conformance::lemma_described(d.attributes, features, o.attributes, conformance::shown_attribute(0x0004, None), 4);
    conformance::lemma_described(d.attributes, features, o.attributes, conformance::shown_attribute(0x0005, None), 5);
    conformance::lemma_described(d.attributes, features, o.attributes, conformance::shown_attribute(0x0006, None), 6);
    conformance::lemma_described(d.attributes, features, o.attributes, conformance::shown_attribute(0x0007, None), 7);
    conformance::lemma_described(d.attributes, features, o.attributes, conformance::shown_attribute(0x0008, None), 8);
    conformance::lemma_described(d.attributes, features, o.attributes, conformance::shown_attribute(0x000A, None), 9);
    conformance::lemma_described(d.commands, features, o.commands, conformance::shown_command(0x00, Privilege::Manage, false, false, None), 0);
    conformance::lemma_described(d.commands, features, o.commands, conformance::shown_command(0x01, Privilege::Operate, false, false, Some(0x02u32)), 1);
    conformance::lemma_described(d.commands, features, o.commands, conformance::shown_command(0x03, Privilege::Manage, false, false, Some(0x04u32)), 2);
    conformance::lemma_described(d.events, features, o.events, conformance::shown_event(0x00, EventPriority::Critical), 0);
    conformance::lemma_described(d.events, features, o.events, conformance::shown_event(0x01, EventPriority::Critical), 1);
    conformance::lemma_described(d.events, features, o.events, conformance::shown_event(0x02, EventPriority::Critical), 2);
    conformance::lemma_described(d.events, features, o.events, conformance::shown_event(0x03, EventPriority::Critical), 3);
    conformance::lemma_at_most(d.attributes, features, o.attributes, d.attributes.len() as int);
    conformance::lemma_at_most(d.commands, features, o.commands, d.commands.len() as int);
    conformance::lemma_at_most(d.events, features, o.events, d.events.len() as int);
}

} // verus!
