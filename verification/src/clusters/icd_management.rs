//! ICD Management, cluster `0x0046`: the clients of a device that is asleep most of the time.
//!
//! A client registers where a check-in message goes and whose subscription makes one unnecessary.
//! A manager may touch a registration only by proving that it knows its key; an administrator need
//! not.

use vstd::prelude::*;
use vstd::utf8;

use crate::bounded;
use crate::bounded::List;
use crate::clusters::dispatch::Cluster;
use crate::clusters::icd_management::recorded::Recorded;
use crate::conformance;
use crate::conformance::{Conformance, Conforming, Definition, DefinitionModel, Optional};
use crate::crypto;
use crate::crypto::{SymmetricKey, SYMMETRIC_KEY_LENGTH_BYTES};
use crate::dm;
use crate::dm::{AccessQualities, Privilege};
use crate::error::ErrorCode;
use crate::im;
use crate::im::{
    AttributeId, ClusterHandler, ClusterId, CommandId, InteractionContext, InvokeAnswer, Lifecycle, ReadAnswer, Reply, Resolved,
    ResolvedCommand, Status, StatusIb, WriteOp,
};
use crate::msg;
use crate::msg::{FabricIndex, NodeId};
use crate::tlv;
use crate::tlv::Tag;
use crate::walk;
use crate::walk::{Manner, Slot, Walked, Want};

pub mod recorded;

verus! {

/// The cluster.
pub const ID: ClusterId = 0x0046;

/// Its revision.
pub const REVISION: u16 = 3;

/// `IdleModeDuration`.
pub const IDLE_MODE_DURATION: AttributeId = 0x0000;

/// `ActiveModeDuration`.
pub const ACTIVE_MODE_DURATION: AttributeId = 0x0001;

/// `ActiveModeThreshold`.
pub const ACTIVE_MODE_THRESHOLD: AttributeId = 0x0002;

/// `RegisteredClients`.
pub const REGISTERED_CLIENTS: AttributeId = 0x0003;

/// `ICDCounter`.
pub const ICD_COUNTER: AttributeId = 0x0004;

/// `ClientsSupportedPerFabric`.
pub const CLIENTS_SUPPORTED_PER_FABRIC: AttributeId = 0x0005;

/// `UserActiveModeTriggerHint`.
pub const USER_ACTIVE_MODE_TRIGGER_HINT: AttributeId = 0x0006;

/// `UserActiveModeTriggerInstruction`.
pub const USER_ACTIVE_MODE_TRIGGER_INSTRUCTION: AttributeId = 0x0007;

/// `OperatingMode`.
pub const OPERATING_MODE: AttributeId = 0x0008;

/// `MaximumCheckInBackoff`.
pub const MAXIMUM_CHECK_IN_BACKOFF: AttributeId = 0x0009;

/// `RegisterClient`.
pub const REGISTER_CLIENT: CommandId = 0x00;

/// `RegisterClientResponse`.
pub const REGISTER_CLIENT_RESPONSE: CommandId = 0x01;

/// `UnregisterClient`.
pub const UNREGISTER_CLIENT: CommandId = 0x02;

/// `StayActiveRequest`.
pub const STAY_ACTIVE_REQUEST: CommandId = 0x03;

/// `StayActiveResponse`.
pub const STAY_ACTIVE_RESPONSE: CommandId = 0x04;

/// The field that says which fabric a registration belongs to.
pub const FABRIC_INDEX_FIELD: u8 = 254;

/// The longest that a device may be idle, in seconds.
pub const IDLE_MODE_DURATION_MAX: u32 = 64_800;

/// The most octets that an instruction may have.
pub const INSTRUCTION_MAX: usize = 128;

/// `CIP`: check-in messages.
pub const CHECK_IN_PROTOCOL_SUPPORT: u32 = 0x01;

/// `UAT`: a person can wake the device.
pub const USER_ACTIVE_MODE_TRIGGER: u32 = 0x02;

/// `LITS`: the device can be idle for long.
pub const LONG_IDLE_TIME_SUPPORT: u32 = 0x04;

/// `DSLS`: the device can change how long it is idle while a client is registered.
pub const DYNAMIC_SIT_LIT_SUPPORT: u32 = 0x08;

/// Power-cycling the device.
pub const POWER_CYCLE: u32 = 0x0000_0001;

/// The device's own settings.
pub const SETTINGS_MENU: u32 = 0x0000_0002;

/// What the instruction says.
pub const CUSTOM_INSTRUCTION: u32 = 0x0000_0004;

/// What the manual says.
pub const DEVICE_MANUAL: u32 = 0x0000_0008;

/// Actuating the sensor.
pub const ACTUATE_SENSOR: u32 = 0x0000_0010;

/// Actuating the sensor for some seconds.
pub const ACTUATE_SENSOR_SECONDS: u32 = 0x0000_0020;

/// Actuating the sensor some times.
pub const ACTUATE_SENSOR_TIMES: u32 = 0x0000_0040;

/// Actuating the sensor until a light blinks.
pub const ACTUATE_SENSOR_LIGHTS_BLINK: u32 = 0x0000_0080;

/// Pressing the reset button.
pub const RESET_BUTTON: u32 = 0x0000_0100;

/// Pressing the reset button until a light blinks.
pub const RESET_BUTTON_LIGHTS_BLINK: u32 = 0x0000_0200;

/// Pressing the reset button for some seconds.
pub const RESET_BUTTON_SECONDS: u32 = 0x0000_0400;

/// Pressing the reset button some times.
pub const RESET_BUTTON_TIMES: u32 = 0x0000_0800;

/// Pressing the setup button.
pub const SETUP_BUTTON: u32 = 0x0000_1000;

/// Pressing the setup button for some seconds.
pub const SETUP_BUTTON_SECONDS: u32 = 0x0000_2000;

/// Pressing the setup button until a light blinks.
pub const SETUP_BUTTON_LIGHTS_BLINK: u32 = 0x0000_4000;

/// Pressing the setup button some times.
pub const SETUP_BUTTON_TIMES: u32 = 0x0000_8000;

/// Pressing a button that the application defines.
pub const APP_DEFINED_BUTTON: u32 = 0x0001_0000;

/// The triggers that say nothing without an instruction: those that are custom, that take a number
/// of seconds or times, and the application's button.
pub const REQUIRE_INSTRUCTION: u32 = 0x0001_AC64;

/// Features of the cluster.
#[derive(Debug, Clone, Copy, PartialEq, Eq, Structural)]
pub struct Feature(pub u32);

impl Default for Feature {
    /// No feature.
    fn default() -> (d: Self)
        ensures
            d.0 == 0,
    {
        Feature(0)
    }
}

impl Feature {
    /// Whether a feature is there.
    pub open spec fn has(self, feature: u32) -> bool {
        self.0 & feature == feature
    }

    /// The bits.
    pub fn bits(self) -> (b: u32)
        ensures
            b == self.0,
    {
        self.0
    }

    /// Whether a feature is there.
    pub fn contains(self, feature: u32) -> (r: bool)
        ensures
            r == self.has(feature),
    {
        self.0 & feature == feature
    }
}

/// How a person wakes the device.
#[derive(Debug, Clone, Copy, PartialEq, Eq, Structural)]
pub struct UserActiveModeTrigger(pub u32);

impl Default for UserActiveModeTrigger {
    /// In no way.
    fn default() -> (d: Self)
        ensures
            d.0 == 0,
    {
        UserActiveModeTrigger(0)
    }
}

impl UserActiveModeTrigger {
    /// In no way.
    pub fn empty() -> (t: Self)
        ensures
            t.0 == 0,
    {
        UserActiveModeTrigger(0)
    }

    /// The bits.
    pub fn bits(self) -> (b: u32)
        ensures
            b == self.0,
    {
        self.0
    }

    /// Whether a trigger among these says nothing without an instruction.
    pub open spec fn instructed(self) -> bool {
        self.0 & REQUIRE_INSTRUCTION != 0
    }

    /// Whether a trigger among these says nothing without an instruction.
    pub fn needs_instruction(self) -> (r: bool)
        ensures
            r == self.instructed(),
    {
        self.0 & REQUIRE_INSTRUCTION != 0
    }
}

/// How available a client is.
#[derive(Debug, Clone, Copy, PartialEq, Eq, Structural)]
pub enum ClientType {
    /// Always.
    Permanent,
    /// Now and then.
    Ephemeral,
}

/// The number that stands for an availability.
pub open spec fn client_value(c: ClientType) -> u64 {
    match c {
        ClientType::Permanent => 0,
        ClientType::Ephemeral => 1,
    }
}

impl Default for ClientType {
    /// A client is there unless it says otherwise.
    fn default() -> (d: Self)
        ensures
            d == ClientType::Permanent,
    {
        ClientType::Permanent
    }
}

impl ClientType {
    /// The number that stands for it.
    pub fn value(self) -> (v: u64)
        ensures
            v == client_value(self),
    {
        match self {
            ClientType::Permanent => 0,
            ClientType::Ephemeral => 1,
        }
    }

    /// The availability that a number stands for.
    pub fn from_value(value: u64) -> (r: Result<Self, Status>)
        ensures
            match r {
                Ok(c) => client_value(c) == value,
                Err(status) => value > 1 && status == Status::ConstraintError,
            },
    {
        match value {
            0 => Ok(ClientType::Permanent),
            1 => Ok(ClientType::Ephemeral),
            _ => Err(Status::ConstraintError),
        }
    }
}

/// How long the device is idle.
#[derive(Debug, Clone, Copy, PartialEq, Eq, Structural)]
pub enum OperatingMode {
    /// Not for long.
    Sit,
    /// For long.
    Lit,
}

/// The number that stands for a mode.
pub open spec fn mode_value(m: OperatingMode) -> u64 {
    match m {
        OperatingMode::Sit => 0,
        OperatingMode::Lit => 1,
    }
}

impl Default for OperatingMode {
    /// A device is idle for short times unless it says otherwise.
    fn default() -> (d: Self)
        ensures
            d == OperatingMode::Sit,
    {
        OperatingMode::Sit
    }
}

impl OperatingMode {
    /// The number that stands for it.
    pub fn value(self) -> (v: u64)
        ensures
            v == mode_value(self),
    {
        match self {
            OperatingMode::Sit => 0,
            OperatingMode::Lit => 1,
        }
    }
}

/// One registered client. Its key never leaves the device.
pub struct Registration {
    /// Where check-in messages go.
    pub check_in_node_id: NodeId,
    /// Whose subscription makes one unnecessary.
    pub monitored_subject: u64,
    /// How available it is.
    pub client_type: ClientType,
    /// Which fabric registered it.
    pub fabric_index: FabricIndex,
    /// What check-in messages are encrypted with.
    pub key: SymmetricKey,
}

/// One registered client, as a value.
pub struct RegistrationModel {
    /// Where check-in messages go.
    pub node: NodeId,
    /// Whose subscription makes one unnecessary.
    pub subject: u64,
    /// How available it is.
    pub client_type: ClientType,
    /// Which fabric registered it.
    pub fabric: FabricIndex,
    /// What check-in messages are encrypted with.
    pub key: Seq<u8>,
}

impl View for Registration {
    type V = RegistrationModel;

    open spec fn view(&self) -> RegistrationModel {
        RegistrationModel {
            node: self.check_in_node_id,
            subject: self.monitored_subject,
            client_type: self.client_type,
            fabric: self.fabric_index,
            key: self.key@,
        }
    }
}

/// The upper half of a subject that is a tag.
pub const CAT_PREFIX: u64 = 0xFFFF_FFFD;

/// Whether a tag is the wanted one, in its version or a later one.
pub open spec fn tag_covers(cat: u32, wanted: u32) -> bool {
    cat / 0x1_0000 == wanted / 0x1_0000 && cat % 0x1_0000 >= wanted % 0x1_0000
}

/// Whether a subscriber is a subject: the node itself, or whoever bears the tag in its version or
/// a later one.
pub open spec fn subject_matches(subject: u64, node: NodeId, cats: Seq<u32>) -> bool {
    if subject / 0x1_0000_0000 != CAT_PREFIX {
        subject == node.0
    } else {
        exists|i: int| 0 <= i < cats.len() && tag_covers(#[trigger] cats[i], (subject % 0x1_0000_0000) as u32)
    }
}

impl Registration {
    /// A client.
    pub fn new(
        check_in_node_id: NodeId,
        monitored_subject: u64,
        client_type: ClientType,
        fabric_index: FabricIndex,
        key: SymmetricKey,
    ) -> (r: Self)
        ensures
            r@ == (RegistrationModel {
                node: check_in_node_id,
                subject: monitored_subject,
                client_type,
                fabric: fabric_index,
                key: key@,
            }),
    {
        Registration { check_in_node_id, monitored_subject, client_type, fabric_index, key }
    }

    /// What check-in messages are encrypted with.
    pub fn key(&self) -> (key: &SymmetricKey)
        ensures
            key@ == self@.key,
    {
        &self.key
    }

    /// Whether a subscriber makes a check-in unnecessary.
    pub fn matches_subscriber(&self, node: NodeId, cats: &[u32]) -> (r: bool)
        ensures
            r == subject_matches(self@.subject, node, cats@),
    {
        if self.monitored_subject / 0x1_0000_0000 != CAT_PREFIX {
            return self.monitored_subject == node.0;
        }
        let wanted: u32 = (self.monitored_subject % 0x1_0000_0000) as u32;
        let mut i: usize = 0;
        while i < cats.len()
            invariant
                i <= cats@.len(),
                self.monitored_subject / 0x1_0000_0000 == CAT_PREFIX,
                wanted == self.monitored_subject % 0x1_0000_0000,
                forall|j: int| 0 <= j < i ==> !tag_covers(#[trigger] cats@[j], wanted),
            decreases cats.len() - i,
        {
            let cat: u32 = cats[i];
            if cat / 0x1_0000 == wanted / 0x1_0000 && cat % 0x1_0000 >= wanted % 0x1_0000 {
                proof {
                    assert(tag_covers(cats@[i as int], wanted));
                }
                return true;
            }
            i = i + 1;
        }
        false
    }

    fn encode(&self, out: &mut Vec<u8>)
        ensures
            final(out)@ == old(out)@ + client_bytes(self@),
    {
        let mut body: Vec<u8> = Vec::new();
        tlv::put_unsigned(&mut body, Tag::Context(1), self.check_in_node_id.0);
        tlv::put_unsigned(&mut body, Tag::Context(2), self.monitored_subject);
        tlv::put_unsigned(&mut body, Tag::Context(4), self.client_type.value());
        tlv::put_unsigned(&mut body, Tag::Context(FABRIC_INDEX_FIELD), self.fabric_index.0 as u64);
        proof {
            assert(body@ =~= tlv::unsigned_bytes(Tag::Context(1), self.check_in_node_id.0) + tlv::unsigned_bytes(
                Tag::Context(2),
                self.monitored_subject,
            ) + tlv::unsigned_bytes(Tag::Context(4), client_value(self.client_type)) + tlv::unsigned_bytes(
                Tag::Context(FABRIC_INDEX_FIELD),
                self.fabric_index.0 as u64,
            ));
        }
        tlv::put_structure(out, Tag::Anonymous, &body);
    }
}

/// A client as it is read.
pub open spec fn client_bytes(c: RegistrationModel) -> Seq<u8> {
    tlv::structure_bytes(
        Tag::Anonymous,
        tlv::unsigned_bytes(Tag::Context(1), c.node.0) + tlv::unsigned_bytes(Tag::Context(2), c.subject)
            + tlv::unsigned_bytes(Tag::Context(4), client_value(c.client_type)) + tlv::unsigned_bytes(
            Tag::Context(FABRIC_INDEX_FIELD),
            c.fabric.0 as u64,
        ),
    )
}

/// How long the device is awake and idle.
#[derive(Debug, Clone, Copy, PartialEq, Eq, Structural)]
pub struct Timings {
    /// `IdleModeDuration`, in seconds.
    pub idle_mode_duration: u32,
    /// `ActiveModeDuration`, in milliseconds.
    pub active_mode_duration: u32,
    /// `ActiveModeThreshold`, in milliseconds.
    pub active_mode_threshold: u16,
    /// `MaximumCheckInBackoff`, in seconds.
    pub maximum_check_in_backoff: u32,
}

impl Default for Timings {
    fn default() -> (t: Self)
        ensures
            t == (Timings {
                idle_mode_duration: 1,
                active_mode_duration: 300,
                active_mode_threshold: 300,
                maximum_check_in_backoff: 1,
            }),
    {
        Timings {
            idle_mode_duration: 1,
            active_mode_duration: 300,
            active_mode_threshold: 300,
            maximum_check_in_backoff: 1,
        }
    }
}

impl Timings {
    /// Whether the times fit together: idle for one second to eighteen hours, a backoff between
    /// the two, and not awake for longer than idle.
    pub open spec fn valid(self) -> bool {
        &&& 1 <= self.idle_mode_duration <= IDLE_MODE_DURATION_MAX
        &&& self.idle_mode_duration <= self.maximum_check_in_backoff <= IDLE_MODE_DURATION_MAX
        &&& self.idle_mode_duration * 1000 >= self.active_mode_duration
    }

    /// Whether the times fit together.
    pub fn is_valid(&self) -> (r: bool)
        ensures
            r == self.valid(),
    {
        if self.idle_mode_duration == 0 || self.idle_mode_duration > IDLE_MODE_DURATION_MAX {
            return false;
        }
        if self.maximum_check_in_backoff < self.idle_mode_duration || self.maximum_check_in_backoff
            > IDLE_MODE_DURATION_MAX {
            return false;
        }
        self.idle_mode_duration * 1000 >= self.active_mode_duration
    }
}

/// How long a device can promise to stay awake.
pub trait StayActive {
    /// The milliseconds that it promises when asked for some.
    fn promise(&self, requested: u32) -> u32;
}

/// A device that promises what it is asked for.
#[derive(Debug, Clone, Copy, PartialEq, Eq, Structural)]
pub struct GrantRequested;

impl Default for GrantRequested {
    fn default() -> (d: Self)
        ensures
            d == GrantRequested,
    {
        GrantRequested
    }
}

impl StayActive for GrantRequested {
    fn promise(&self, requested: u32) -> (promised: u32)
        ensures
            promised == requested,
    {
        requested
    }
}

/// What `RegisterClient` asks for.
pub struct RegisterModel {
    /// Where check-in messages go.
    pub node: NodeId,
    /// Whose subscription makes one unnecessary.
    pub subject: u64,
    /// What check-in messages are encrypted with.
    pub key: Seq<u8>,
    /// The key of the registration that is changed.
    pub verification: Option<Seq<u8>>,
    /// How available the client is.
    pub client_type: ClientType,
}

/// The fields of `RegisterClient`.
pub open spec fn register_slots() -> Seq<Slot> {
    seq![
        Slot(0, Want::Unsigned(u64::MAX)),
        Slot(1, Want::Unsigned(u64::MAX)),
        Slot(2, Want::Octets(SYMMETRIC_KEY_LENGTH_BYTES, SYMMETRIC_KEY_LENGTH_BYTES)),
        Slot(3, Want::Octets(SYMMETRIC_KEY_LENGTH_BYTES, SYMMETRIC_KEY_LENGTH_BYTES)),
        Slot(4, Want::Unsigned(1)),
    ]
}

/// What `RegisterClient` asks for, or what is wrong with it.
pub open spec fn register_request(b: Seq<u8>) -> Result<RegisterModel, Status> {
    match walk::walked(b, register_slots(), walk::lenient()) {
        Err(status) => Err(status),
        Ok(items) => match (walk::num(items, 0), walk::num(items, 1), walk::octets(b, items, 2), walk::num(items, 4)) {
            (Some(node), Some(subject), Some(key), Some(client)) => Ok(
                RegisterModel {
                    node: NodeId(node),
                    subject,
                    key,
                    verification: walk::octets(b, items, 3),
                    client_type: if client == 0 { ClientType::Permanent } else { ClientType::Ephemeral },
                },
            ),
            _ => Err(Status::InvalidCommand),
        },
    }
}

/// The fields of `UnregisterClient`.
pub open spec fn unregister_slots() -> Seq<Slot> {
    seq![
        Slot(0, Want::Unsigned(u64::MAX)),
        Slot(1, Want::Octets(SYMMETRIC_KEY_LENGTH_BYTES, SYMMETRIC_KEY_LENGTH_BYTES)),
    ]
}

/// What `UnregisterClient` asks for, or what is wrong with it.
pub open spec fn unregister_request(b: Seq<u8>) -> Result<(NodeId, Option<Seq<u8>>), Status> {
    match walk::walked(b, unregister_slots(), walk::lenient()) {
        Err(status) => Err(status),
        Ok(items) => match walk::num(items, 0) {
            Some(node) => Ok((NodeId(node), walk::octets(b, items, 1))),
            None => Err(Status::InvalidCommand),
        },
    }
}

/// The fields of `StayActiveRequest`.
pub open spec fn stay_slots() -> Seq<Slot> {
    seq![Slot(0, Want::Unsigned(0xFFFF_FFFF))]
}

/// The milliseconds that `StayActiveRequest` asks for, or what is wrong with it.
pub open spec fn stay_request(b: Seq<u8>) -> Result<u32, Status> {
    match walk::walked(b, stay_slots(), walk::lenient()) {
        Err(status) => Err(status),
        Ok(items) => match walk::num(items, 0) {
            Some(duration) => Ok(duration as u32),
            None => Err(Status::InvalidCommand),
        },
    }
}

/// Clients of a fabric.
pub open spec fn of_fabric(fabric: FabricIndex) -> spec_fn(RegistrationModel) -> bool {
    |c: RegistrationModel| c.fabric == fabric
}

/// Clients of other fabrics.
pub open spec fn not_of_fabric(fabric: FabricIndex) -> spec_fn(RegistrationModel) -> bool {
    |c: RegistrationModel| c.fabric != fabric
}

/// The client that a fabric registered for a node.
pub open spec fn registration_is(fabric: FabricIndex, node: NodeId) -> spec_fn(RegistrationModel) -> bool {
    |c: RegistrationModel| c.fabric == fabric && c.node == node
}

/// Whether a registration may be touched: by an administrator, or by whoever knows its key.
pub open spec fn may_touch(administrator: bool, verification: Option<Seq<u8>>, key: Seq<u8>) -> bool {
    administrator || verification == Some(key)
}

/// What registering comes to: a registration of that node is changed, where it may be; otherwise
/// there is one more, where the fabric has not had its share.
pub open spec fn registered(
    clients: Seq<RegistrationModel>,
    r: RegisterModel,
    fabric: FabricIndex,
    administrator: bool,
    per_fabric: nat,
    cap: nat,
) -> (Seq<RegistrationModel>, Option<Status>) {
    match bounded::first(clients, registration_is(fabric, r.node)) {
        Some(i) => if may_touch(administrator, r.verification, clients[i].key) {
            (
                clients.update(
                    i,
                    RegistrationModel { subject: r.subject, client_type: r.client_type, key: r.key, ..clients[i] },
                ),
                None,
            )
        } else {
            (clients, Some(Status::Failure))
        },
        None => if bounded::count(clients, of_fabric(fabric)) >= per_fabric || clients.len() >= cap {
            (clients, Some(Status::ResourceExhausted))
        } else {
            (
                clients.push(
                    RegistrationModel {
                        node: r.node,
                        subject: r.subject,
                        client_type: r.client_type,
                        fabric,
                        key: r.key,
                    },
                ),
                None,
            )
        },
    }
}

/// What unregistering comes to.
pub open spec fn unregistered(
    clients: Seq<RegistrationModel>,
    node: NodeId,
    verification: Option<Seq<u8>>,
    fabric: FabricIndex,
    administrator: bool,
) -> (Seq<RegistrationModel>, Option<Status>) {
    match bounded::first(clients, registration_is(fabric, node)) {
        None => (clients, Some(Status::NotFound)),
        Some(i) => if may_touch(administrator, verification, clients[i].key) {
            (clients.remove(i), None)
        } else {
            (clients, Some(Status::Failure))
        },
    }
}

/// A structure of one number.
pub open spec fn number_response(tag: Tag, v: u32) -> Seq<u8> {
    tlv::structure_bytes(tag, tlv::unsigned_bytes(Tag::Context(0), v as u64))
}

/// Whether the accessing subject holds Administer; one whose privilege is not known does not.
pub open spec fn administers(ctx: InteractionContext) -> bool {
    ctx.privilege matches Some(p) && p.covers(Privilege::Administer)
}

/// How much there may be of what, and what the device can do.
pub struct Setup {
    /// Clients of one fabric.
    pub per_fabric: nat,
    /// Clients in all.
    pub capacity: nat,
    /// The features.
    pub features: Feature,
    /// The check-in counter.
    pub counter: u32,
}

/// What a command comes to, given what the device promises.
pub open spec fn commanded(
    clients: Seq<RegistrationModel>,
    s: Setup,
    command: CommandId,
    data: Option<Seq<u8>>,
    ctx: InteractionContext,
    promised: u32,
    tag: Tag,
) -> (Seq<RegistrationModel>, InvokeAnswer) {
    if command == REGISTER_CLIENT {
        if !s.features.has(CHECK_IN_PROTOCOL_SUPPORT) {
            (clients, im::refused(Status::UnsupportedCommand))
        } else {
            match (ctx.fabric_index, data) {
                (None, _) => (clients, im::refused(Status::UnsupportedAccess)),
                (_, None) => (clients, im::refused(Status::InvalidCommand)),
                (Some(fabric), Some(b)) => match register_request(b) {
                    Err(status) => (clients, im::refused(status)),
                    Ok(r) => match registered(clients, r, fabric, administers(ctx), s.per_fabric, s.capacity) {
                        (after, Some(status)) => (after, im::refused(status)),
                        (after, None) => (after, Ok((Some(REGISTER_CLIENT_RESPONSE), number_response(tag, s.counter)))),
                    },
                },
            }
        }
    } else if command == UNREGISTER_CLIENT {
        if !s.features.has(CHECK_IN_PROTOCOL_SUPPORT) {
            (clients, im::refused(Status::UnsupportedCommand))
        } else {
            match (ctx.fabric_index, data) {
                (None, _) => (clients, im::refused(Status::UnsupportedAccess)),
                (_, None) => (clients, im::refused(Status::InvalidCommand)),
                (Some(fabric), Some(b)) => match unregister_request(b) {
                    Err(status) => (clients, im::refused(status)),
                    Ok((node, verification)) => match unregistered(
                        clients,
                        node,
                        verification,
                        fabric,
                        administers(ctx),
                    ) {
                        (after, Some(status)) => (after, im::refused(status)),
                        (after, None) => (after, im::done()),
                    },
                },
            }
        }
    } else if command == STAY_ACTIVE_REQUEST {
        if !s.features.has(LONG_IDLE_TIME_SUPPORT) {
            (clients, im::refused(Status::UnsupportedCommand))
        } else {
            match data {
                None => (clients, im::refused(Status::InvalidCommand)),
                Some(b) => match stay_request(b) {
                    Err(status) => (clients, im::refused(status)),
                    Ok(_) => (clients, Ok((Some(STAY_ACTIVE_RESPONSE), number_response(tag, promised)))),
                },
            }
        }
    } else {
        (clients, im::refused(Status::UnsupportedCommand))
    }
}

/// The clients among the first `n` that a read gives.
pub open spec fn client_items(clients: Seq<RegistrationModel>, ctx: InteractionContext, n: int) -> Seq<u8>
    decreases n,
{
    if n <= 0 {
        Seq::empty()
    } else {
        client_items(clients, ctx, n - 1) + (if ctx.sees(clients[n - 1].fabric) {
            client_bytes(clients[n - 1])
        } else {
            Seq::empty()
        })
    }
}

/// Whether the device may go over to a mode: it has to know long idle times, and while a client is
/// registered only one that can change at any time does.
pub open spec fn mode_refusal(features: Feature, clients: Seq<RegistrationModel>, current: OperatingMode, mode: OperatingMode) -> Option<
    Status,
> {
    if !features.has(LONG_IDLE_TIME_SUPPORT) {
        Some(Status::UnsupportedAttribute)
    } else if !features.has(DYNAMIC_SIT_LIT_SUPPORT) && clients.len() > 0 && !(mode is Sit && current is Sit) {
        Some(Status::InvalidInState)
    } else {
        None
    }
}

struct RegisterFields {
    node: NodeId,
    subject: u64,
    key: SymmetricKey,
    verification: Option<SymmetricKey>,
    client_type: ClientType,
}

spec fn key_of(k: Option<SymmetricKey>) -> Option<Seq<u8>> {
    match k {
        Some(k) => Some(k@),
        None => None,
    }
}

impl View for RegisterFields {
    type V = RegisterModel;

    closed spec fn view(&self) -> RegisterModel {
        RegisterModel {
            node: self.node,
            subject: self.subject,
            key: self.key@,
            verification: key_of(self.verification),
            client_type: self.client_type,
        }
    }
}

fn decode_register(data: &[u8]) -> (r: Result<RegisterFields, Status>)
    ensures
        match r {
            Ok(f) => register_request(data@) == Ok::<RegisterModel, Status>(f@),
            Err(status) => register_request(data@) == Err::<RegisterModel, Status>(status),
        },
{
    let slots: Vec<Slot> = vec![
        Slot(0, Want::Unsigned(u64::MAX)),
        Slot(1, Want::Unsigned(u64::MAX)),
        Slot(2, Want::Octets(SYMMETRIC_KEY_LENGTH_BYTES, SYMMETRIC_KEY_LENGTH_BYTES)),
        Slot(3, Want::Octets(SYMMETRIC_KEY_LENGTH_BYTES, SYMMETRIC_KEY_LENGTH_BYTES)),
        Slot(4, Want::Unsigned(1)),
    ];
    proof {
        assert(slots@ =~= register_slots());
    }
    let w: Walked = match walk::walk(data, &slots, Manner::lenient()) {
        Err(status) => return Err(status),
        Ok(w) => w,
    };
    let length: usize = data.len();
    proof {
        reveal_with_fuel(walk::wanted, 6);
        walk::lemma_octets_length(data@, register_slots(), walk::lenient(), 2, SYMMETRIC_KEY_LENGTH_BYTES);
        walk::lemma_octets_length(data@, register_slots(), walk::lenient(), 3, SYMMETRIC_KEY_LENGTH_BYTES);
    }
    match (w.num(0), w.num(1), w.octets(2), w.num(4)) {
        (Some(node), Some(subject), Some(key), Some(client)) => {
            let key: SymmetricKey = match SymmetricKey::from_slice(key) {
                None => return Err(Status::ConstraintError),
                Some(key) => key,
            };
            let verification: Option<SymmetricKey> = match w.octets(3) {
                None => None,
                Some(v) => SymmetricKey::from_slice(v),
            };
            let client_type: ClientType = if client == 0 { ClientType::Permanent } else { ClientType::Ephemeral };
            Ok(RegisterFields { node: NodeId(node), subject, key, verification, client_type })
        },
        _ => Err(Status::InvalidCommand),
    }
}

fn decode_unregister(data: &[u8]) -> (r: Result<(NodeId, Option<SymmetricKey>), Status>)
    ensures
        match r {
            Ok((node, verification)) => unregister_request(data@) == Ok::<(NodeId, Option<Seq<u8>>), Status>(
                (node, key_of(verification)),
            ),
            Err(status) => unregister_request(data@) == Err::<(NodeId, Option<Seq<u8>>), Status>(status),
        },
{
    let slots: Vec<Slot> = vec![
        Slot(0, Want::Unsigned(u64::MAX)),
        Slot(1, Want::Octets(SYMMETRIC_KEY_LENGTH_BYTES, SYMMETRIC_KEY_LENGTH_BYTES)),
    ];
    proof {
        assert(slots@ =~= unregister_slots());
    }
    let w: Walked = match walk::walk(data, &slots, Manner::lenient()) {
        Err(status) => return Err(status),
        Ok(w) => w,
    };
    let length: usize = data.len();
    proof {
        reveal_with_fuel(walk::wanted, 6);
        walk::lemma_octets_length(data@, unregister_slots(), walk::lenient(), 1, SYMMETRIC_KEY_LENGTH_BYTES);
    }
    match w.num(0) {
        None => Err(Status::InvalidCommand),
        Some(node) => {
            let verification: Option<SymmetricKey> = match w.octets(1) {
                None => None,
                Some(v) => SymmetricKey::from_slice(v),
            };
            Ok((NodeId(node), verification))
        },
    }
}

fn decode_stay_active(data: &[u8]) -> (r: Result<u32, Status>)
    ensures
        r == stay_request(data@),
{
    let slots: Vec<Slot> = vec![Slot(0, Want::Unsigned(0xFFFF_FFFF))];
    proof {
        assert(slots@ =~= stay_slots());
    }
    let w: Walked = match walk::walk(data, &slots, Manner::lenient()) {
        Err(status) => return Err(status),
        Ok(w) => w,
    };
    match w.num(0) {
        None => Err(Status::InvalidCommand),
        Some(duration) => Ok(duration as u32),
    }
}

/// A structure of one number.
pub fn respond_number(tag: Tag, v: u32) -> (out: Vec<u8>)
    ensures
        out@ == number_response(tag, v),
{
    let mut body: Vec<u8> = Vec::new();
    tlv::put_unsigned(&mut body, Tag::Context(0), v as u64);
    let mut out: Vec<u8> = Vec::new();
    tlv::put_structure(&mut out, tag, &body);
    proof {
        assert(body@ =~= tlv::unsigned_bytes(Tag::Context(0), v as u64));
        assert(out@ =~= number_response(tag, v));
    }
    out
}

fn allows(administrator: bool, verification: &Option<SymmetricKey>, key: &SymmetricKey) -> (r: bool)
    ensures
        r == may_touch(administrator, key_of(*verification), key@),
{
    if administrator {
        return true;
    }
    match verification {
        None => false,
        Some(v) => crypto::ct_eq(v.as_bytes(), key.as_bytes()),
    }
}

/// The milliseconds that a command asks the device to stay awake for, where it can be asked.
pub open spec fn staying(features: Feature, command: CommandId, data: Option<Seq<u8>>) -> Option<u32> {
    match data {
        Some(b) => match stay_request(b) {
            Ok(requested) => if command == STAY_ACTIVE_REQUEST && features.has(LONG_IDLE_TIME_SUPPORT) {
                Some(requested)
            } else {
                None
            },
            Err(_) => None,
        },
        None => None,
    }
}

/// ICD Management for at most `N` clients in all and `P` of each of `F` fabrics.
pub struct IcdManagement<'a, const F: usize, const P: usize, const N: usize, A: StayActive> {
    /// The clients.
    pub clients: List<Registration, N>,
    /// `ICDCounter`.
    pub counter: u32,
    /// The times.
    pub timings: Timings,
    /// The features.
    pub features: Feature,
    /// `OperatingMode`.
    pub operating_mode: OperatingMode,
    /// `UserActiveModeTriggerHint`.
    pub trigger_hint: UserActiveModeTrigger,
    /// `UserActiveModeTriggerInstruction`.
    pub trigger_instruction: &'a str,
    /// How long the device can stay awake, with what it was asked to promise.
    pub stay_active: Recorded<A>,
}

impl<'a, const F: usize, const P: usize, const N: usize> IcdManagement<'a, F, P, N, GrantRequested> {
    /// A cluster without clients, for a device that stays awake for as long as it is asked to. The
    /// table has room for each fabric's share.
    pub fn new(features: Feature, timings: Timings) -> (c: Self)
        requires
            N >= F * P,
        ensures
            c.fresh(features, timings),
            c.stay_active.product() == GrantRequested,
            c.stay_active.promises() == Seq::<(u32, u32)>::empty(),
    {
        IcdManagement::with_stay_active(features, timings, GrantRequested)
    }
}

impl<'a, const F: usize, const P: usize, const N: usize, A: StayActive> IcdManagement<'a, F, P, N, A> {
    /// A cluster without clients, that starts in the short mode.
    pub open spec fn fresh(&self, features: Feature, timings: Timings) -> bool {
        &&& self.clients.models() == Seq::<RegistrationModel>::empty()
        &&& self.counter == 0
        &&& self.timings == timings
        &&& self.features == features
        &&& self.operating_mode is Sit
        &&& self.trigger_hint.0 == 0
        &&& self.trigger_instruction@ == Seq::<char>::empty()
    }

    /// How much there may be of what, and what the device can do.
    pub open spec fn setup(&self) -> Setup {
        Setup { per_fabric: P as nat, capacity: N as nat, features: self.features, counter: self.counter }
    }

    /// What no command changes, but for what the device promises.
    pub open spec fn same_device(&self, other: &Self) -> bool {
        &&& self.timings == other.timings
        &&& self.features == other.features
        &&& self.trigger_hint == other.trigger_hint
        &&& self.trigger_instruction == other.trigger_instruction
    }

    /// The same, where the device is not asked to promise anything.
    pub open spec fn same_setup(&self, other: &Self) -> bool {
        self.same_device(other) && self.stay_active == other.stay_active
    }

    /// Whether the device, asked by a command to stay awake, may promise this.
    pub open spec fn promises(&self, command: CommandId, data: Option<Seq<u8>>, promised: u32) -> bool {
        staying(self.features, command, data) matches Some(requested) ==> call_ensures(
            A::promise,
            (&self.stay_active.product(), requested),
            promised,
        )
    }

    /// A cluster without clients, for a device that decides how long it can stay awake. The table
    /// has room for each fabric's share.
    pub fn with_stay_active(features: Feature, timings: Timings, stay_active: A) -> (c: Self)
        requires
            N >= F * P,
        ensures
            c.fresh(features, timings),
            c.stay_active.product() == stay_active,
            c.stay_active.promises() == Seq::<(u32, u32)>::empty(),
    {
        let clients: List<Registration, N> = List::new();
        proof {
            assert(clients.models() =~= Seq::<RegistrationModel>::empty());
            reveal_strlit("");
            assert(""@ =~= Seq::<char>::empty());
        }
        IcdManagement {
            clients,
            counter: 0,
            timings,
            features,
            operating_mode: OperatingMode::Sit,
            trigger_hint: UserActiveModeTrigger::empty(),
            trigger_instruction: "",
            stay_active: Recorded::new(stay_active),
        }
    }

    /// The same with how a person wakes the device; a trigger that says nothing without an
    /// instruction needs one.
    pub fn with_trigger(self, hint: UserActiveModeTrigger, instruction: &'a str) -> (r: Result<Self, ErrorCode>)
        ensures
            (r is Ok) == (utf8::encode_utf8(instruction@).len() <= INSTRUCTION_MAX && !(hint.instructed()
                && utf8::encode_utf8(instruction@).len() == 0)),
            match r {
                Ok(c) => c == (IcdManagement { trigger_hint: hint, trigger_instruction: instruction, ..self }),
                Err(code) => code == ErrorCode::InvalidArgument,
            },
    {
        let length: usize = bounded::octet_length(instruction);
        if length > INSTRUCTION_MAX {
            return Err(ErrorCode::InvalidArgument);
        }
        if hint.needs_instruction() && length == 0 {
            return Err(ErrorCode::InvalidArgument);
        }
        Ok(IcdManagement { trigger_hint: hint, trigger_instruction: instruction, ..self })
    }

    /// The times.
    pub fn timings(&self) -> (t: Timings)
        ensures
            t == self.timings,
    {
        self.timings
    }

    /// `OperatingMode`.
    pub fn operating_mode(&self) -> (m: OperatingMode)
        ensures
            m == self.operating_mode,
    {
        self.operating_mode
    }

    /// Goes over to a mode.
    pub fn set_operating_mode(&mut self, mode: OperatingMode) -> (r: Result<(), Status>)
        ensures
            final(self).clients == old(self).clients,
            final(self).counter == old(self).counter,
            final(self).same_setup(old(self)),
            match mode_refusal(old(self).features, old(self).clients.models(), old(self).operating_mode, mode) {
                Some(status) => r == Err::<(), Status>(status) && final(self).operating_mode == old(self).operating_mode,
                None => r == Ok::<(), Status>(()) && final(self).operating_mode == mode,
            },
    {
        if !self.features.contains(LONG_IDLE_TIME_SUPPORT) {
            return Err(Status::UnsupportedAttribute);
        }
        let stays: bool = mode == OperatingMode::Sit && self.operating_mode == OperatingMode::Sit;
        if !self.features.contains(DYNAMIC_SIT_LIT_SUPPORT) && !self.clients.is_empty() && !stays {
            return Err(Status::InvalidInState);
        }
        self.operating_mode = mode;
        Ok(())
    }

    /// `ICDCounter`.
    pub fn counter(&self) -> (n: u32)
        ensures
            n == self.counter,
    {
        self.counter
    }

    /// Moves the counter on, and gives what the next check-in message is encrypted with.
    pub fn next_check_in_counter(&mut self) -> (n: u32)
        ensures
            n == (old(self).counter + 1) % 0x1_0000_0000,
            final(self).counter == n,
            final(self).clients == old(self).clients,
            final(self).operating_mode == old(self).operating_mode,
            final(self).same_setup(old(self)),
    {
        self.counter = if self.counter == u32::MAX { 0 } else { self.counter + 1 };
        self.counter
    }

    /// Sets the counter to what was kept.
    pub fn restore_counter(&mut self, value: u32)
        ensures
            final(self).counter == value,
            final(self).clients == old(self).clients,
            final(self).operating_mode == old(self).operating_mode,
            final(self).same_setup(old(self)),
    {
        self.counter = value;
    }

    /// Sets the counter from a random word.
    pub fn randomize_counter(&mut self, randomness: u32)
        ensures
            final(self).counter == randomness % 0x1000_0000 + 1,
            final(self).clients == old(self).clients,
            final(self).operating_mode == old(self).operating_mode,
            final(self).same_setup(old(self)),
    {
        self.counter = msg::initial_counter(randomness);
    }

    /// The clients.
    pub fn clients(&self) -> (clients: &[Registration])
        ensures
            bounded::models(clients@) == self.clients.models(),
    {
        self.clients.as_slice()
    }

    /// How many clients a fabric has.
    pub fn len_of_fabric(&self, fabric: FabricIndex) -> (n: usize)
        ensures
            n == bounded::count(self.clients.models(), of_fabric(fabric)),
    {
        self.clients.tally(
            |c: &Registration| -> (b: bool)
                ensures
                    b == (c.fabric_index == fabric)
                { c.fabric_index.0 == fabric.0 },
            Ghost(of_fabric(fabric)),
        )
    }

    /// Forgets the clients of a fabric.
    pub fn remove_fabric(&mut self, fabric: FabricIndex)
        ensures
            final(self).clients.models() == old(self).clients.models().filter(not_of_fabric(fabric)),
            final(self).counter == old(self).counter,
            final(self).operating_mode == old(self).operating_mode,
            final(self).same_setup(old(self)),
    {
        self.clients.keep(
            |c: &Registration| -> (b: bool)
                ensures
                    b == (c.fabric_index != fabric)
                { c.fabric_index.0 != fabric.0 },
            Ghost(not_of_fabric(fabric)),
        );
    }

    fn position(&self, fabric: FabricIndex, node: NodeId) -> (at: Option<usize>)
        ensures
            match at {
                Some(i) => bounded::first(self.clients.models(), registration_is(fabric, node)) == Some(i as int) && i
                    < self.clients.models().len(),
                None => bounded::first(self.clients.models(), registration_is(fabric, node)) is None,
            },
    {
        self.clients.find(
            |c: &Registration| -> (b: bool)
                ensures
                    b == (c.fabric_index == fabric && c.check_in_node_id == node)
                { c.fabric_index.0 == fabric.0 && c.check_in_node_id.0 == node.0 },
            Ghost(registration_is(fabric, node)),
        )
    }

    fn register(&mut self, f: RegisterFields, fabric: FabricIndex, administrator: bool) -> (r: Result<(), Status>)
        ensures
            (final(self).clients.models(), refusal(r)) == registered(
                old(self).clients.models(),
                f@,
                fabric,
                administrator,
                P as nat,
                N as nat,
            ),
            final(self).counter == old(self).counter,
            final(self).operating_mode == old(self).operating_mode,
            final(self).same_setup(old(self)),
    {
        match self.position(fabric, f.node) {
            Some(i) => {
                proof {
                    assert(self.clients.models()[i as int] == self.clients@[i as int]@);
                }
                let current: &Registration = self.clients.get(i);
                if !allows(administrator, &f.verification, &current.key) {
                    return Err(Status::Failure);
                }
                let next: Registration = Registration::new(
                    current.check_in_node_id,
                    f.subject,
                    f.client_type,
                    current.fabric_index,
                    f.key,
                );
                self.clients.replace(i, next);
                Ok(())
            },
            None => {
                if self.len_of_fabric(fabric) >= P {
                    return Err(Status::ResourceExhausted);
                }
                if self.clients.add(Registration::new(f.node, f.subject, f.client_type, fabric, f.key)) {
                    Ok(())
                } else {
                    Err(Status::ResourceExhausted)
                }
            },
        }
    }

    fn unregister(
        &mut self,
        node: NodeId,
        verification: Option<SymmetricKey>,
        fabric: FabricIndex,
        administrator: bool,
    ) -> (r: Result<(), Status>)
        ensures
            (final(self).clients.models(), refusal(r)) == unregistered(
                old(self).clients.models(),
                node,
                key_of(verification),
                fabric,
                administrator,
            ),
            final(self).counter == old(self).counter,
            final(self).operating_mode == old(self).operating_mode,
            final(self).same_setup(old(self)),
    {
        let i: usize = match self.position(fabric, node) {
            None => return Err(Status::NotFound),
            Some(i) => i,
        };
        proof {
            assert(self.clients.models()[i as int] == self.clients@[i as int]@);
        }
        if !allows(administrator, &verification, &self.clients.get(i).key) {
            return Err(Status::Failure);
        }
        self.clients.take_out(i);
        Ok(())
    }

    fn encode_clients(&self, ctx: &InteractionContext, tag: Tag) -> (out: Vec<u8>)
        ensures
            out@ == tlv::array_bytes(
                tag,
                client_items(self.clients.models(), *ctx, self.clients.models().len() as int),
            ),
    {
        let items: &[Registration] = self.clients.as_slice();
        let ghost models = self.clients.models();
        let mut body: Vec<u8> = Vec::new();
        let mut i: usize = 0;
        while i < items.len()
            invariant
                i <= items@.len() == models.len(),
                models == bounded::models(items@),
                body@ == client_items(models, *ctx, i as int),
            decreases items.len() - i,
        {
            proof {
                assert(models[i as int] == items@[i as int]@);
            }
            if ctx.visible(items[i].fabric_index) {
                items[i].encode(&mut body);
            } else {
                proof {
                    assert(body@ + Seq::<u8>::empty() =~= body@);
                }
            }
            i = i + 1;
        }
        let mut out: Vec<u8> = Vec::new();
        tlv::put_array(&mut out, tag, &body);
        proof {
            assert(out@ =~= tlv::array_bytes(tag, body@));
        }
        out
    }
}

/// What went wrong, where something did.
pub open spec fn refusal(r: Result<(), Status>) -> Option<Status> {
    match r {
        Ok(_) => None,
        Err(status) => Some(status),
    }
}

/// The feature that an attribute needs, where it needs one.
pub open spec fn feature_for(attribute: AttributeId) -> u32 {
    if attribute == REGISTERED_CLIENTS || attribute == ICD_COUNTER || attribute == CLIENTS_SUPPORTED_PER_FABRIC || attribute
        == MAXIMUM_CHECK_IN_BACKOFF {
        CHECK_IN_PROTOCOL_SUPPORT
    } else if attribute == USER_ACTIVE_MODE_TRIGGER_HINT || attribute == USER_ACTIVE_MODE_TRIGGER_INSTRUCTION {
        USER_ACTIVE_MODE_TRIGGER
    } else if attribute == OPERATING_MODE {
        LONG_IDLE_TIME_SUPPORT
    } else {
        0
    }
}

/// The cluster's definition.
pub open spec fn defined() -> DefinitionModel {
    DefinitionModel {
        id: ID,
        revision: REVISION,
        features: 0x0F,
        attributes: seq![
            conformance::reads(IDLE_MODE_DURATION, Conformance::Mandatory),
            conformance::reads(ACTIVE_MODE_DURATION, Conformance::Mandatory),
            conformance::reads(ACTIVE_MODE_THRESHOLD, Conformance::Mandatory),
            conformance::reads(REGISTERED_CLIENTS, Conformance::With(CHECK_IN_PROTOCOL_SUPPORT)),
            conformance::reads(ICD_COUNTER, Conformance::With(CHECK_IN_PROTOCOL_SUPPORT)),
            conformance::reads(CLIENTS_SUPPORTED_PER_FABRIC, Conformance::With(CHECK_IN_PROTOCOL_SUPPORT)),
            conformance::reads(USER_ACTIVE_MODE_TRIGGER_HINT, Conformance::With(USER_ACTIVE_MODE_TRIGGER)),
            conformance::reads(USER_ACTIVE_MODE_TRIGGER_INSTRUCTION, Conformance::OptionalWith(USER_ACTIVE_MODE_TRIGGER)),
            conformance::reads(OPERATING_MODE, Conformance::With(LONG_IDLE_TIME_SUPPORT)),
            conformance::reads(MAXIMUM_CHECK_IN_BACKOFF, Conformance::OptionalWith(CHECK_IN_PROTOCOL_SUPPORT)),
        ],
        commands: seq![
            conformance::invokes_with(
                REGISTER_CLIENT,
                Privilege::Manage,
                dm::scoped_access(),
                Some(REGISTER_CLIENT_RESPONSE),
                Conformance::With(CHECK_IN_PROTOCOL_SUPPORT),
            ),
            conformance::invokes_with(
                UNREGISTER_CLIENT,
                Privilege::Manage,
                dm::scoped_access(),
                None,
                Conformance::With(CHECK_IN_PROTOCOL_SUPPORT),
            ),
            conformance::invokes(
                STAY_ACTIVE_REQUEST,
                Privilege::Manage,
                Some(STAY_ACTIVE_RESPONSE),
                Conformance::With(LONG_IDLE_TIME_SUPPORT),
            ),
        ],
        generated: seq![
            (REGISTER_CLIENT_RESPONSE, Conformance::With(CHECK_IN_PROTOCOL_SUPPORT)),
            (STAY_ACTIVE_RESPONSE, Conformance::With(LONG_IDLE_TIME_SUPPORT)),
        ],
        events: Seq::empty(),
    }
}

/// The cluster's definition.
pub fn definition() -> (d: Definition)
    ensures
        d@ == defined(),
{
    let d: Definition = Definition {
        id: ID,
        revision: REVISION,
        features: 0x0F,
        attributes: vec![
            conformance::readable(IDLE_MODE_DURATION, Conformance::Mandatory),
            conformance::readable(ACTIVE_MODE_DURATION, Conformance::Mandatory),
            conformance::readable(ACTIVE_MODE_THRESHOLD, Conformance::Mandatory),
            conformance::readable(REGISTERED_CLIENTS, Conformance::With(CHECK_IN_PROTOCOL_SUPPORT)),
            conformance::readable(ICD_COUNTER, Conformance::With(CHECK_IN_PROTOCOL_SUPPORT)),
            conformance::readable(CLIENTS_SUPPORTED_PER_FABRIC, Conformance::With(CHECK_IN_PROTOCOL_SUPPORT)),
            conformance::readable(USER_ACTIVE_MODE_TRIGGER_HINT, Conformance::With(USER_ACTIVE_MODE_TRIGGER)),
            conformance::readable(USER_ACTIVE_MODE_TRIGGER_INSTRUCTION, Conformance::OptionalWith(USER_ACTIVE_MODE_TRIGGER)),
            conformance::readable(OPERATING_MODE, Conformance::With(LONG_IDLE_TIME_SUPPORT)),
            conformance::readable(MAXIMUM_CHECK_IN_BACKOFF, Conformance::OptionalWith(CHECK_IN_PROTOCOL_SUPPORT)),
        ],
        commands: vec![
            conformance::invocable_with(
                REGISTER_CLIENT,
                Privilege::Manage,
                AccessQualities::fabric_scoped(),
                Some(REGISTER_CLIENT_RESPONSE),
                Conformance::With(CHECK_IN_PROTOCOL_SUPPORT),
            ),
            conformance::invocable_with(
                UNREGISTER_CLIENT,
                Privilege::Manage,
                AccessQualities::fabric_scoped(),
                None,
                Conformance::With(CHECK_IN_PROTOCOL_SUPPORT),
            ),
            conformance::invocable(
                STAY_ACTIVE_REQUEST,
                Privilege::Manage,
                Some(STAY_ACTIVE_RESPONSE),
                Conformance::With(LONG_IDLE_TIME_SUPPORT),
            ),
        ],
        generated: vec![
            (REGISTER_CLIENT_RESPONSE, Conformance::With(CHECK_IN_PROTOCOL_SUPPORT)),
            (STAY_ACTIVE_RESPONSE, Conformance::With(LONG_IDLE_TIME_SUPPORT)),
        ],
        events: Vec::new(),
    };
    proof {
        assert(d@.attributes =~= defined().attributes);
        assert(d@.commands =~= defined().commands);
        assert(d@.generated =~= defined().generated);
    }
    d
}

/// The description for features and for what the product chooses.
pub fn conforming(features: Feature, optional: &Optional) -> (r: Result<Conforming, ErrorCode>)
    ensures
        conformance::outcome(r) == conformance::conform(defined(), features.0, optional@),
{
    Conforming::new(&definition(), features.0, optional)
}

impl<'a, const F: usize, const P: usize, const N: usize, A: StayActive> Cluster for IcdManagement<'a, F, P, N, A> {
    const ID: ClusterId = ID;
}

impl<'a, const F: usize, const P: usize, const N: usize, A: StayActive> ClusterHandler for IcdManagement<'a, F, P, N, A> {
    open spec fn answers(&self, resolved: Resolved, ctx: InteractionContext, tag: Tag, a: ReadAnswer) -> bool {
        let id = resolved.attribute;
        a == if feature_for(id) != 0 && !self.features.has(feature_for(id)) {
            Err::<Seq<u8>, Status>(Status::UnsupportedAttribute)
        } else if id == IDLE_MODE_DURATION {
            Ok(tlv::unsigned_bytes(tag, self.timings.idle_mode_duration as u64))
        } else if id == ACTIVE_MODE_DURATION {
            Ok(tlv::unsigned_bytes(tag, self.timings.active_mode_duration as u64))
        } else if id == ACTIVE_MODE_THRESHOLD {
            Ok(tlv::unsigned_bytes(tag, self.timings.active_mode_threshold as u64))
        } else if id == REGISTERED_CLIENTS {
            Ok(
                tlv::array_bytes(
                    tag,
                    client_items(self.clients.models(), ctx, self.clients.models().len() as int),
                ),
            )
        } else if id == ICD_COUNTER {
            Ok(tlv::unsigned_bytes(tag, self.counter as u64))
        } else if id == CLIENTS_SUPPORTED_PER_FABRIC {
            Ok(tlv::unsigned_bytes(tag, P as u64))
        } else if id == USER_ACTIVE_MODE_TRIGGER_HINT {
            Ok(tlv::unsigned_bytes(tag, self.trigger_hint.0 as u64))
        } else if id == USER_ACTIVE_MODE_TRIGGER_INSTRUCTION {
            Ok(tlv::text_bytes(tag, self.trigger_instruction@))
        } else if id == OPERATING_MODE {
            Ok(tlv::unsigned_bytes(tag, mode_value(self.operating_mode)))
        } else if id == MAXIMUM_CHECK_IN_BACKOFF {
            Ok(tlv::unsigned_bytes(tag, self.timings.maximum_check_in_backoff as u64))
        } else {
            Err::<Seq<u8>, Status>(Status::UnsupportedAttribute)
        }
    }

    open spec fn writes(
        before: &Self,
        after: &Self,
        resolved: Resolved,
        data: Seq<u8>,
        op: WriteOp,
        ctx: InteractionContext,
        r: Result<(), Status>,
    ) -> bool {
        *after == *before && r == Err::<(), Status>(Status::UnsupportedWrite)
    }

    open spec fn invokes(
        before: &Self,
        after: &Self,
        resolved: ResolvedCommand,
        fields: Option<Seq<u8>>,
        ctx: InteractionContext,
        tag: Tag,
        a: InvokeAnswer,
    ) -> bool {
        &&& after.counter == before.counter
        &&& after.operating_mode == before.operating_mode
        &&& after.same_device(before)
        &&& exists|promised: u32|
            {
                &&& before.promises(resolved.command, fields, promised)
                &&& (after.clients.models(), a) == #[trigger] commanded(
                    before.clients.models(),
                    before.setup(),
                    resolved.command,
                    fields,
                    ctx,
                    promised,
                    tag,
                )
                &&& match staying(before.features, resolved.command, fields) {
                    Some(requested) => after.stay_active.asked(&before.stay_active, requested, promised),
                    None => after.stay_active == before.stay_active,
                }
            }
    }

    open spec fn outlives(before: &Self, after: &Self, event: Lifecycle) -> bool {
        let Lifecycle::FabricRemoved(fabric) = event;
        &&& after.clients.models() == before.clients.models().filter(not_of_fabric(fabric))
        &&& after.counter == before.counter
        &&& after.operating_mode == before.operating_mode
        &&& after.same_setup(before)
    }

    open spec fn unfit(&self, resolved: ResolvedCommand) -> Status {
        Status::Failure
    }

    fn answer(&self, resolved: &Resolved, ctx: &InteractionContext, tag: Tag) -> (a: Result<Vec<u8>, Status>) {
        let v: u64 = match resolved.attribute {
            IDLE_MODE_DURATION => self.timings.idle_mode_duration as u64,
            ACTIVE_MODE_DURATION => self.timings.active_mode_duration as u64,
            ACTIVE_MODE_THRESHOLD => self.timings.active_mode_threshold as u64,
            REGISTERED_CLIENTS => {
                if !self.features.contains(CHECK_IN_PROTOCOL_SUPPORT) {
                    return Err(Status::UnsupportedAttribute);
                }
                return Ok(self.encode_clients(ctx, tag));
            },
            ICD_COUNTER => {
                if !self.features.contains(CHECK_IN_PROTOCOL_SUPPORT) {
                    return Err(Status::UnsupportedAttribute);
                }
                self.counter as u64
            },
            CLIENTS_SUPPORTED_PER_FABRIC => {
                if !self.features.contains(CHECK_IN_PROTOCOL_SUPPORT) {
                    return Err(Status::UnsupportedAttribute);
                }
                P as u64
            },
            USER_ACTIVE_MODE_TRIGGER_HINT => {
                if !self.features.contains(USER_ACTIVE_MODE_TRIGGER) {
                    return Err(Status::UnsupportedAttribute);
                }
                self.trigger_hint.bits() as u64
            },
            USER_ACTIVE_MODE_TRIGGER_INSTRUCTION => {
                if !self.features.contains(USER_ACTIVE_MODE_TRIGGER) {
                    return Err(Status::UnsupportedAttribute);
                }
                let mut out: Vec<u8> = Vec::new();
                tlv::put_text(&mut out, tag, self.trigger_instruction);
                proof {
                    assert(out@ =~= tlv::text_bytes(tag, self.trigger_instruction@));
                }
                return Ok(out);
            },
            OPERATING_MODE => {
                if !self.features.contains(LONG_IDLE_TIME_SUPPORT) {
                    return Err(Status::UnsupportedAttribute);
                }
                self.operating_mode.value()
            },
            MAXIMUM_CHECK_IN_BACKOFF => {
                if !self.features.contains(CHECK_IN_PROTOCOL_SUPPORT) {
                    return Err(Status::UnsupportedAttribute);
                }
                self.timings.maximum_check_in_backoff as u64
            },
            _ => return Err(Status::UnsupportedAttribute),
        };
        let mut out: Vec<u8> = Vec::new();
        tlv::put_unsigned(&mut out, tag, v);
        proof {
            assert(out@ =~= tlv::unsigned_bytes(tag, v));
        }
        Ok(out)
    }

    fn write(&mut self, resolved: &Resolved, data: &[u8], op: WriteOp, ctx: &InteractionContext) -> (r: Result<(), Status>) {
        Err(Status::UnsupportedWrite)
    }

    fn perform(
        &mut self,
        resolved: &ResolvedCommand,
        fields: Option<&[u8]>,
        ctx: &InteractionContext,
        tag: Tag,
    ) -> (a: Result<Reply, StatusIb>) {
        let administrator: bool = match ctx.privilege {
            Some(p) => p.grants(Privilege::Administer),
            None => false,
        };
        let ghost mut promise: u32 = 0;
        let a: Result<Reply, StatusIb> = match resolved.command {
            REGISTER_CLIENT => if !self.features.contains(CHECK_IN_PROTOCOL_SUPPORT) {
                im::refuse(Status::UnsupportedCommand)
            } else {
                match (ctx.fabric_index, fields) {
                    (None, _) => im::refuse(Status::UnsupportedAccess),
                    (_, None) => im::refuse(Status::InvalidCommand),
                    (Some(fabric), Some(data)) => match decode_register(data) {
                        Err(status) => im::refuse(status),
                        Ok(f) => match self.register(f, fabric, administrator) {
                            Err(status) => im::refuse(status),
                            Ok(_) => im::respond(REGISTER_CLIENT_RESPONSE, respond_number(tag, self.counter)),
                        },
                    },
                }
            },
            UNREGISTER_CLIENT => if !self.features.contains(CHECK_IN_PROTOCOL_SUPPORT) {
                im::refuse(Status::UnsupportedCommand)
            } else {
                match (ctx.fabric_index, fields) {
                    (None, _) => im::refuse(Status::UnsupportedAccess),
                    (_, None) => im::refuse(Status::InvalidCommand),
                    (Some(fabric), Some(data)) => match decode_unregister(data) {
                        Err(status) => im::refuse(status),
                        Ok((node, verification)) => match self.unregister(node, verification, fabric, administrator) {
                            Err(status) => im::refuse(status),
                            Ok(_) => im::no_response(),
                        },
                    },
                }
            },
            STAY_ACTIVE_REQUEST => if !self.features.contains(LONG_IDLE_TIME_SUPPORT) {
                im::refuse(Status::UnsupportedCommand)
            } else {
                match fields {
                    None => im::refuse(Status::InvalidCommand),
                    Some(data) => match decode_stay_active(data) {
                        Err(status) => im::refuse(status),
                        Ok(requested) => {
                            let promised: u32 = self.stay_active.promise(requested);
                            proof {
                                promise = promised;
                            }
                            im::respond(STAY_ACTIVE_RESPONSE, respond_number(tag, promised))
                        },
                    },
                }
            },
            _ => im::refuse(Status::UnsupportedCommand),
        };
        proof {
            assert(old(self).promises(resolved.command, im::octets(fields), promise));
            assert((self.clients.models(), im::invoke_answer(a)) == commanded(
                old(self).clients.models(),
                old(self).setup(),
                resolved.command,
                im::octets(fields),
                *ctx,
                promise,
                tag,
            ));
        }
        a
    }

    fn on_lifecycle(&mut self, event: Lifecycle) {
        let Lifecycle::FabricRemoved(fabric) = event;
        self.remove_fabric(fabric);
    }

    fn unfit_status(&self, resolved: &ResolvedCommand) -> (s: Status) {
        Status::Failure
    }
}

/// A manager that does not know a registration's key can neither change it nor remove it.
pub proof fn law_a_stranger_touches_nothing(
    clients: Seq<RegistrationModel>,
    r: RegisterModel,
    fabric: FabricIndex,
    per_fabric: nat,
    cap: nat,
)
    requires
        bounded::first(clients, registration_is(fabric, r.node)) matches Some(i) && r.verification != Some(clients[i].key),
    ensures
        registered(clients, r, fabric, false, per_fabric, cap) == (clients, Some(Status::Failure)),
        unregistered(clients, r.node, r.verification, fabric, false) == (clients, Some(Status::Failure)),
{
}

/// An administrator's verification key is ignored.
pub proof fn law_an_administrators_key_is_ignored(
    clients: Seq<RegistrationModel>,
    r: RegisterModel,
    verification: Option<Seq<u8>>,
    fabric: FabricIndex,
    per_fabric: nat,
    cap: nat,
)
    ensures
        registered(clients, r, fabric, true, per_fabric, cap) == registered(
            clients,
            RegisterModel { verification, ..r },
            fabric,
            true,
            per_fabric,
            cap,
        ),
{
}

/// Reading the clients gives away nothing of their keys.
pub proof fn law_a_key_is_never_read(c: RegistrationModel, key: Seq<u8>)
    ensures
        client_bytes(c) == client_bytes(RegistrationModel { key, ..c }),
{
}

/// A subscriber with a later version of the tag is the subject too.
pub proof fn law_a_later_tag_still_matches(subject: u64, node: NodeId, cats: Seq<u32>, i: int, newer: u32)
    requires
        subject / 0x1_0000_0000 == CAT_PREFIX,
        0 <= i < cats.len(),
        tag_covers(cats[i], (subject % 0x1_0000_0000) as u32),
        tag_covers(newer, cats[i]),
    ensures
        subject_matches(subject, node, cats.update(i, newer)),
{
    assert(tag_covers(cats.update(i, newer)[i], (subject % 0x1_0000_0000) as u32));
}

/// While the other fabrics keep to their shares, a fabric with less than its own finds room.
pub proof fn law_every_fabric_has_its_share(
    clients: Seq<RegistrationModel>,
    r: RegisterModel,
    fabric: FabricIndex,
    administrator: bool,
    fabrics: nat,
    per_fabric: nat,
    cap: nat,
)
    requires
        fabrics > 0,
        cap >= fabrics * per_fabric,
        clients.len() - bounded::count(clients, of_fabric(fabric)) <= (fabrics - 1) * per_fabric,
        bounded::count(clients, of_fabric(fabric)) < per_fabric,
        bounded::first(clients, registration_is(fabric, r.node)) is None,
    ensures
        registered(clients, r, fabric, administrator, per_fabric, cap).1 is None,
{
    assert((fabrics - 1) * per_fabric + per_fabric == fabrics * per_fabric) by (nonlinear_arith);
}

/// A fabric that was removed leaves no client, and no key, behind.
pub proof fn law_a_removed_fabric_leaves_no_client(clients: Seq<RegistrationModel>, fabric: FabricIndex)
    ensures
        bounded::count(clients.filter(not_of_fabric(fabric)), of_fabric(fabric)) == 0,
{
    bounded::lemma_filter(clients, not_of_fabric(fabric));
    bounded::lemma_filter_none(clients.filter(not_of_fabric(fabric)), of_fabric(fabric));
}

/// The next check-in never carries the counter that was reported.
pub proof fn law_a_check_in_is_no_replay(counter: u32)
    ensures
        (counter + 1) % 0x1_0000_0000 != counter,
{
}

/// Taking a registration out takes out the first of its node and fabric, and nothing else.
proof fn lemma_unregistered(
    was: Seq<RegistrationModel>,
    node: NodeId,
    verification: Option<Seq<u8>>,
    fabric: FabricIndex,
    administrator: bool,
)
    ensures
        ({
            let (left, status) = unregistered(was, node, verification, fabric, administrator);
            &&& status is Some ==> left == was
            &&& status is None ==> exists|i: int|
                {
                    &&& 0 <= i < was.len()
                    &&& (#[trigger] was[i]).fabric == fabric
                    &&& was[i].node == node
                    &&& administrator || verification == Some(was[i].key)
                    &&& left.len() == was.len() - 1
                    &&& forall|j: int| 0 <= j < i ==> left[j] == was[j]
                    &&& forall|j: int| i <= j < left.len() ==> left[j] == was[j + 1]
                }
            &&& (forall|i: int| 0 <= i < was.len() ==> !((#[trigger] was[i]).fabric == fabric && was[i].node == node))
                ==> status == Some(Status::NotFound)
            &&& (administrator && exists|i: int| 0 <= i < was.len() && (#[trigger] was[i]).fabric == fabric && was[i].node == node)
                ==> status is None
        }),
{
    let mine = registration_is(fabric, node);
    bounded::lemma_first_from(was, mine, 0);
    match bounded::first(was, mine) {
        Some(i) => {
            assert(mine(was[i]));
        },
        None => {
            assert forall|i: int| 0 <= i < was.len() implies !((#[trigger] was[i]).fabric == fabric && was[i].node == node) by {
                assert(!mine(was[i]));
            }
        },
    }
}

/// `UnregisterClient` that succeeds takes out one registration, that of the node that it names on the
/// accessing fabric, and leaves every other as it is and in its order. It succeeds for an administrator
/// wherever there is one, is answered that nothing is found where there is none, and changes nothing
/// where it is refused.
pub proof fn law_unregistering_takes_out_one<'a, const F: usize, const P: usize, const N: usize, A: StayActive>(
    before: IcdManagement<'a, F, P, N, A>,
    after: IcdManagement<'a, F, P, N, A>,
    resolved: ResolvedCommand,
    b: Seq<u8>,
    items: Seq<tlv::Element>,
    node: u64,
    fabric: FabricIndex,
    ctx: InteractionContext,
    tag: Tag,
    a: InvokeAnswer,
)
    requires
        IcdManagement::invokes(&before, &after, resolved, Some(b), ctx, tag, a),
        resolved.command == 0x02,
        before.features.has(0x01),
        ctx.fabric_index == Some(fabric),
        walk::walked(b, seq![Slot(0, Want::Unsigned(u64::MAX)), Slot(1, Want::Octets(16, 16))], walk::lenient()) == Ok::<
            Seq<tlv::Element>,
            Status,
        >(items),
        walk::num(items, 0) == Some(node),
    ensures
        ({
            let (was, left) = (before.clients.models(), after.clients.models());
            &&& a == im::done() || (a is Err && left == was)
            &&& a == im::done() ==> exists|i: int|
                {
                    &&& 0 <= i < was.len()
                    &&& (#[trigger] was[i]).fabric == fabric
                    &&& was[i].node.0 == node
                    &&& ctx.privilege == Some(Privilege::Administer) || walk::octets(b, items, 1) == Some(was[i].key)
                    &&& left.len() == was.len() - 1
                    &&& forall|j: int| 0 <= j < i ==> left[j] == was[j]
                    &&& forall|j: int| i <= j < left.len() ==> left[j] == was[j + 1]
                }
            &&& (forall|i: int| 0 <= i < was.len() ==> !((#[trigger] was[i]).fabric == fabric && was[i].node.0 == node))
                ==> a == im::refused(Status::NotFound)
            &&& (ctx.privilege == Some(Privilege::Administer) && exists|i: int|
                0 <= i < was.len() && (#[trigger] was[i]).fabric == fabric && was[i].node.0 == node) ==> a == im::done()
        }),
{
    assert(unregister_slots() =~= seq![Slot(0, Want::Unsigned(u64::MAX)), Slot(1, Want::Octets(16, 16))]);
    lemma_unregistered(before.clients.models(), NodeId(node), walk::octets(b, items, 1), fabric, administers(ctx));
}

/// Whether a list of registrations is another in which one is as asked for: in the place of that of its
/// node and fabric, or behind all others.
pub open spec fn kept(was: Seq<RegistrationModel>, has: Seq<RegistrationModel>, r: RegisterModel, fabric: FabricIndex) -> bool {
    exists|i: int|
        {
            &&& 0 <= i < has.len()
            &&& #[trigger] has[i] == (RegistrationModel {
                node: r.node,
                subject: r.subject,
                client_type: r.client_type,
                fabric,
                key: r.key,
            })
            &&& has.len() == was.len() || (has.len() == was.len() + 1 && i == was.len())
            &&& i < was.len() ==> was[i].fabric == fabric && was[i].node == r.node
            &&& forall|j: int| 0 <= j < was.len() && j != i ==> has[j] == was[j]
        }
}

/// A registration is changed where the node has one, and is one more where it has none.
proof fn lemma_registered(
    was: Seq<RegistrationModel>,
    r: RegisterModel,
    fabric: FabricIndex,
    administrator: bool,
    per_fabric: nat,
    cap: nat,
)
    ensures
        ({
            let (has, status) = registered(was, r, fabric, administrator, per_fabric, cap);
            &&& status is Some ==> has == was
            &&& status is None ==> kept(was, has, r, fabric)
            &&& status == Some(Status::ResourceExhausted) <==> {
                &&& forall|i: int| 0 <= i < was.len() ==> !((#[trigger] was[i]).fabric == fabric && was[i].node == r.node)
                &&& was.filter(of_fabric(fabric)).len() >= per_fabric || was.len() >= cap
            }
        }),
{
    let mine = registration_is(fabric, r.node);
    let (has, status) = registered(was, r, fabric, administrator, per_fabric, cap);
    bounded::lemma_first_from(was, mine, 0);
    match bounded::first(was, mine) {
        Some(i) => {
            assert(mine(was[i]));
            if status is None {
                assert(has[i].key == r.key);
            }
        },
        None => {
            assert forall|i: int| 0 <= i < was.len() implies !((#[trigger] was[i]).fabric == fabric && was[i].node == r.node) by {
                assert(!mine(was[i]));
            }
            if status is None {
                assert(has[was.len() as int].key == r.key);
            }
        },
    }
}

/// `RegisterClient` that succeeds leaves the accessing fabric a registration of the node that it names,
/// with the subject, the type and the key that it brings. There is one more than before where the node
/// had none, and else as many; every other registration is as it was, where it was. The response tells
/// the counter.
pub proof fn law_registering_is_kept<'a, const F: usize, const P: usize, const N: usize, A: StayActive>(
    before: IcdManagement<'a, F, P, N, A>,
    after: IcdManagement<'a, F, P, N, A>,
    resolved: ResolvedCommand,
    b: Seq<u8>,
    items: Seq<tlv::Element>,
    r: RegisterModel,
    fabric: FabricIndex,
    ctx: InteractionContext,
    tag: Tag,
    a: InvokeAnswer,
)
    requires
        IcdManagement::invokes(&before, &after, resolved, Some(b), ctx, tag, a),
        resolved.command == 0x00,
        before.features.has(0x01),
        ctx.fabric_index == Some(fabric),
        walk::walked(
            b,
            seq![
                Slot(0, Want::Unsigned(u64::MAX)),
                Slot(1, Want::Unsigned(u64::MAX)),
                Slot(2, Want::Octets(16, 16)),
                Slot(3, Want::Octets(16, 16)),
                Slot(4, Want::Unsigned(1)),
            ],
            walk::lenient(),
        ) == Ok::<Seq<tlv::Element>, Status>(items),
        walk::num(items, 0) == Some(r.node.0),
        walk::num(items, 1) == Some(r.subject),
        walk::octets(b, items, 2) == Some(r.key),
        walk::num(items, 4) == Some(if r.client_type is Permanent { 0u64 } else { 1 }),
    ensures
        a is Err ==> after.clients.models() == before.clients.models(),
        a is Ok ==> a->Ok_0.0 == Some(0x01u32),
        a is Ok && a->Ok_0.1.len() <= usize::MAX ==> tlv::shows_record(
            a->Ok_0.1,
            0,
            tag,
            seq![(0, Some(before.counter as u64))],
        ),
        a is Ok ==> kept(before.clients.models(), after.clients.models(), r, fabric),
{
    assert(register_slots() =~= seq![
        Slot(0, Want::Unsigned(u64::MAX)),
        Slot(1, Want::Unsigned(u64::MAX)),
        Slot(2, Want::Octets(16, 16)),
        Slot(3, Want::Octets(16, 16)),
        Slot(4, Want::Unsigned(1)),
    ]);
    let asked = RegisterModel { verification: walk::octets(b, items, 3), ..r };
    lemma_registered(before.clients.models(), asked, fabric, administers(ctx), P as nat, N as nat);
    assert(register_request(b) == Ok::<RegisterModel, Status>(asked));
    if a is Ok {
        let body = a->Ok_0.1;
        tlv::lemma_fields_of_one(0, before.counter as u64);
        tlv::lemma_stands_whole(body);
        if body.len() <= usize::MAX {
            tlv::lemma_shows_record(body, 0, tag, seq![(0, Some(before.counter as u64))]);
        }
    }
}

/// `RegisterClient` finds no room exactly where the node has no registration on the accessing fabric and
/// either the fabric has its share or the table is full.
pub proof fn law_registering_finds_room<'a, const F: usize, const P: usize, const N: usize, A: StayActive>(
    before: IcdManagement<'a, F, P, N, A>,
    after: IcdManagement<'a, F, P, N, A>,
    resolved: ResolvedCommand,
    b: Seq<u8>,
    items: Seq<tlv::Element>,
    r: RegisterModel,
    fabric: FabricIndex,
    ctx: InteractionContext,
    tag: Tag,
    a: InvokeAnswer,
)
    requires
        IcdManagement::invokes(&before, &after, resolved, Some(b), ctx, tag, a),
        resolved.command == 0x00,
        before.features.has(0x01),
        ctx.fabric_index == Some(fabric),
        walk::walked(
            b,
            seq![
                Slot(0, Want::Unsigned(u64::MAX)),
                Slot(1, Want::Unsigned(u64::MAX)),
                Slot(2, Want::Octets(16, 16)),
                Slot(3, Want::Octets(16, 16)),
                Slot(4, Want::Unsigned(1)),
            ],
            walk::lenient(),
        ) == Ok::<Seq<tlv::Element>, Status>(items),
        walk::num(items, 0) == Some(r.node.0),
        walk::num(items, 1) == Some(r.subject),
        walk::octets(b, items, 2) == Some(r.key),
        walk::num(items, 4) == Some(if r.client_type is Permanent { 0u64 } else { 1 }),
    ensures
        a == im::refused(Status::ResourceExhausted) <==> {
            let was = before.clients.models();
            &&& forall|i: int| 0 <= i < was.len() ==> !((#[trigger] was[i]).fabric == fabric && was[i].node == r.node)
            &&& was.filter(of_fabric(fabric)).len() >= P || was.len() >= N
        },
{
    assert(register_slots() =~= seq![
        Slot(0, Want::Unsigned(u64::MAX)),
        Slot(1, Want::Unsigned(u64::MAX)),
        Slot(2, Want::Octets(16, 16)),
        Slot(3, Want::Octets(16, 16)),
        Slot(4, Want::Unsigned(1)),
    ]);
    let asked = RegisterModel { verification: walk::octets(b, items, 3), ..r };
    lemma_registered(before.clients.models(), asked, fabric, administers(ctx), P as nat, N as nat);
    assert(register_request(b) == Ok::<RegisterModel, Status>(asked));
}

/// The numbers of a registration that a read shows.
pub open spec fn client_numbers(c: RegistrationModel) -> Seq<(u8, Option<u64>)> {
    seq![
        (1, Some(c.node.0)),
        (2, Some(c.subject)),
        (4, Some(if c.client_type is Permanent { 0 } else { 1 })),
        (254, Some(c.fabric.0 as u64)),
    ]
}

proof fn lemma_client_numbers(c: RegistrationModel)
    ensures
        client_bytes(c) == tlv::record_bytes()(client_numbers(c)),
{
    let n = client_numbers(c);
    reveal_with_fuel(tlv::fields_bytes, 5);
    assert(n.drop_last().drop_last().drop_last().drop_last() =~= Seq::empty());
    assert(tlv::fields_bytes(n) =~= tlv::unsigned_bytes(Tag::Context(1), c.node.0) + tlv::unsigned_bytes(
        Tag::Context(2),
        c.subject,
    ) + tlv::unsigned_bytes(Tag::Context(4), client_value(c.client_type)) + tlv::unsigned_bytes(
        Tag::Context(254),
        c.fabric.0 as u64,
    ));
}

proof fn lemma_seen_clients(clients: Seq<RegistrationModel>, ctx: InteractionContext, n: int, seen: spec_fn(RegistrationModel) -> bool)
    requires
        0 <= n <= clients.len(),
        forall|c: RegistrationModel| #[trigger] seen(c) == ctx.sees(c.fabric),
    ensures
        client_items(clients, ctx, n) == tlv::concat(clients.take(n).filter(seen), |c: RegistrationModel| client_bytes(c)),
    decreases n,
{
    let f = |c: RegistrationModel| client_bytes(c);
    reveal(Seq::filter);
    if n > 0 {
        lemma_seen_clients(clients, ctx, n - 1, seen);
        assert(clients.take(n).drop_last() =~= clients.take(n - 1));
        let c = clients[n - 1];
        if seen(c) {
            tlv::lemma_concat_push(clients.take(n - 1).filter(seen), c, f);
        } else {
            assert(client_items(clients, ctx, n - 1) + Seq::<u8>::empty() =~= client_items(clients, ctx, n - 1));
        }
    } else {
        assert(clients.take(0) =~= Seq::empty());
    }
}

/// `RegisteredClients` shows every registration that the reader may see, each with its node, its subject,
/// its type and its fabric, in order, and nothing else: to a reader that filters by fabric those of its
/// own, and to any other all of them.
pub proof fn law_every_registration_is_read<'a, const F: usize, const P: usize, const N: usize, A: StayActive>(
    c: IcdManagement<'a, F, P, N, A>,
    resolved: Resolved,
    ctx: InteractionContext,
    tag: Tag,
    a: ReadAnswer,
)
    requires
        c.answers(resolved, ctx, tag, a),
        resolved.attribute == 0x0003,
        c.features.has(0x01),
    ensures
        a is Ok,
        a->Ok_0.len() <= usize::MAX ==> tlv::shows_records(
            a->Ok_0,
            0,
            tag,
            c.clients.models().filter(|r: RegistrationModel| ctx.sees(r.fabric)).map_values(|r: RegistrationModel| client_numbers(r)),
        ),
{
    let models = c.clients.models();
    let seen = |r: RegistrationModel| ctx.sees(r.fabric);
    let f = |r: RegistrationModel| client_bytes(r);
    let g = |r: RegistrationModel| client_numbers(r);
    let kept = models.filter(seen);
    lemma_seen_clients(models, ctx, models.len() as int, seen);
    assert(models.take(models.len() as int) =~= models);
    assert forall|r: RegistrationModel| f(r) == #[trigger] tlv::record_bytes()(g(r)) by {
        lemma_client_numbers(r);
    }
    tlv::lemma_concat_map(kept, f, g, tlv::record_bytes());
    let b = a->Ok_0;
    tlv::lemma_stands_whole(b);
    if b.len() <= usize::MAX {
        tlv::lemma_shows_records(b, 0, tag, kept.map_values(g));
    }
}

/// A device tells how long it is idle and awake, its counter, how many clients a fabric may have, its mode
/// and its longest backoff as they are.
pub proof fn law_the_times_are_told<'a, const F: usize, const P: usize, const N: usize, A: StayActive>(
    c: IcdManagement<'a, F, P, N, A>,
    resolved: Resolved,
    ctx: InteractionContext,
    tag: Tag,
    a: ReadAnswer,
)
    requires
        c.answers(resolved, ctx, tag, a),
        c.features.has(0x01),
        c.features.has(0x04),
    ensures
        resolved.attribute == 0x0000 ==> a is Ok && tlv::shows_number(a->Ok_0, 0, tag, c.timings.idle_mode_duration as u64),
        resolved.attribute == 0x0001 ==> a is Ok && tlv::shows_number(a->Ok_0, 0, tag, c.timings.active_mode_duration as u64),
        resolved.attribute == 0x0002 ==> a is Ok && tlv::shows_number(a->Ok_0, 0, tag, c.timings.active_mode_threshold as u64),
        resolved.attribute == 0x0004 ==> a is Ok && tlv::shows_number(a->Ok_0, 0, tag, c.counter as u64),
        resolved.attribute == 0x0005 ==> a is Ok && tlv::shows_number(a->Ok_0, 0, tag, P as u64),
        resolved.attribute == 0x0008 ==> a is Ok && tlv::shows_number(
            a->Ok_0,
            0,
            tag,
            if c.operating_mode is Sit { 0 } else { 1 },
        ),
        resolved.attribute == 0x0009 ==> a is Ok && tlv::shows_number(
            a->Ok_0,
            0,
            tag,
            c.timings.maximum_check_in_backoff as u64,
        ),
{
    tlv::lemma_shows_number(tag, c.timings.idle_mode_duration as u64);
    tlv::lemma_shows_number(tag, c.timings.active_mode_duration as u64);
    tlv::lemma_shows_number(tag, c.timings.active_mode_threshold as u64);
    tlv::lemma_shows_number(tag, c.counter as u64);
    tlv::lemma_shows_number(tag, P as u64);
    tlv::lemma_shows_number(tag, mode_value(c.operating_mode));
    tlv::lemma_shows_number(tag, c.timings.maximum_check_in_backoff as u64);
}

/// A device that is asked to stay awake answers with what it promises, and no client is touched.
pub proof fn law_a_promise_is_told<'a, const F: usize, const P: usize, const N: usize, A: StayActive>(
    before: IcdManagement<'a, F, P, N, A>,
    after: IcdManagement<'a, F, P, N, A>,
    resolved: ResolvedCommand,
    b: Seq<u8>,
    items: Seq<tlv::Element>,
    requested: u64,
    ctx: InteractionContext,
    tag: Tag,
    a: InvokeAnswer,
)
    requires
        IcdManagement::invokes(&before, &after, resolved, Some(b), ctx, tag, a),
        resolved.command == 0x03,
        before.features.has(0x04),
        walk::walked(b, seq![Slot(0, Want::Unsigned(0xFFFF_FFFF))], walk::lenient()) == Ok::<Seq<tlv::Element>, Status>(items),
        walk::num(items, 0) == Some(requested),
        requested <= u32::MAX,
    ensures
        after.clients.models() == before.clients.models(),
        a is Ok && a->Ok_0.0 == Some(0x04u32),
        after.stay_active.promises().len() == before.stay_active.promises().len() + 1,
        after.stay_active.promises().last().0 == requested,
        a->Ok_0.1.len() <= usize::MAX ==> tlv::shows_record(
            a->Ok_0.1,
            0,
            tag,
            seq![(0, Some(after.stay_active.promises().last().1 as u64))],
        ),
{
    assert(stay_slots() =~= seq![Slot(0, Want::Unsigned(0xFFFF_FFFF))]);
    let promised = after.stay_active.promises().last().1;
    let body = a->Ok_0.1;
    tlv::lemma_fields_of_one(0, promised as u64);
    tlv::lemma_stands_whole(body);
    if body.len() <= usize::MAX {
        tlv::lemma_shows_record(body, 0, tag, seq![(0, Some(promised as u64))]);
    }
}

/// A device goes over to a mode exactly where it can be idle for long, and where no client relies on the one
/// that it is in or it may change that at any time; one that was short and stays short always may.
pub proof fn law_a_mode_is_relied_on(features: Feature, clients: Seq<RegistrationModel>, current: OperatingMode, mode: OperatingMode)
    ensures
        mode_refusal(features, clients, current, mode) is None <==> (features.has(0x04) && (features.has(0x08)
            || clients.len() == 0 || (mode is Sit && current is Sit))),
{
}

/// How the cluster describes itself follows from the features and from what the product chooses: each attribute, command and event
/// is there exactly where they say so, with who may read, write or invoke it, and nothing else is.
pub proof fn law_the_cluster_describes_itself(features: u32, o: conformance::OptionalModel, c: crate::dm::ClusterModel)
    requires
        conformance::conform(defined(), features, o) == Ok::<crate::dm::ClusterModel, ErrorCode>(c),
    ensures
        c.id == 0x0046,
        c.revision == 3,
        c.feature_map == features,
        features & !0x0Fu32 == 0,
        c.attributes.contains(conformance::shown_attribute(0x0000, None)) == (true),
        c.attributes.contains(conformance::shown_attribute(0x0001, None)) == (true),
        c.attributes.contains(conformance::shown_attribute(0x0002, None)) == (true),
        c.attributes.contains(conformance::shown_attribute(0x0003, None)) == (features & 0x01 != 0),
        c.attributes.contains(conformance::shown_attribute(0x0004, None)) == (features & 0x01 != 0),
        c.attributes.contains(conformance::shown_attribute(0x0005, None)) == (features & 0x01 != 0),
        c.attributes.contains(conformance::shown_attribute(0x0006, None)) == (features & 0x02 != 0),
        c.attributes.contains(conformance::shown_attribute(0x0007, None)) == ((features & 0x02 != 0 && o.attributes.contains(0x0007))),
        c.attributes.contains(conformance::shown_attribute(0x0008, None)) == (features & 0x04 != 0),
        c.attributes.contains(conformance::shown_attribute(0x0009, None)) == ((features & 0x01 != 0 && o.attributes.contains(0x0009))),
        c.accepted_commands.contains(conformance::shown_command(0x00, Privilege::Manage, true, false, Some(0x01u32))) == (features & 0x01 != 0),
        c.accepted_commands.contains(conformance::shown_command(0x02, Privilege::Manage, true, false, None)) == (features & 0x01 != 0),
        c.accepted_commands.contains(conformance::shown_command(0x03, Privilege::Manage, false, false, Some(0x04u32))) == (features & 0x04 != 0),
        c.attributes.len() <= 10,
        c.accepted_commands.len() <= 3,
        c.events.len() <= 0,
{
    let d = defined();
    assert(conformance::told_apart(d.attributes));
    assert(conformance::told_apart(d.commands));
    assert(conformance::told_apart(d.events));
    conformance::lemma_described(d.attributes, features, o.attributes, conformance::shown_attribute(0x0000, None), 0);
    conformance::lemma_described(d.attributes, features, o.attributes, conformance::shown_attribute(0x0001, None), 1);
    conformance::lemma_described(d.attributes, features, o.attributes, conformance::shown_attribute(0x0002, None), 2);
    conformance::lemma_described(d.attributes, features, o.attributes, conformance::shown_attribute(0x0003, None), 3);
    conformance::lemma_described(d.attributes, features, o.attributes, conformance::shown_attribute(0x0004, None), 4);
    conformance::lemma_described(d.attributes, features, o.attributes, conformance::shown_attribute(0x0005, None), 5);
    conformance::lemma_described(d.attributes, features, o.attributes, conformance::shown_attribute(0x0006, None), 6);
    conformance::lemma_described(d.attributes, features, o.attributes, conformance::shown_attribute(0x0007, None), 7);
    conformance::lemma_described(d.attributes, features, o.attributes, conformance::shown_attribute(0x0008, None), 8);
    conformance::lemma_described(d.attributes, features, o.attributes, conformance::shown_attribute(0x0009, None), 9);
    conformance::lemma_described(d.commands, features, o.commands, conformance::shown_command(0x00, Privilege::Manage, true, false, Some(0x01u32)), 0);
    conformance::lemma_described(d.commands, features, o.commands, conformance::shown_command(0x02, Privilege::Manage, true, false, None), 1);
    conformance::lemma_described(d.commands, features, o.commands, conformance::shown_command(0x03, Privilege::Manage, false, false, Some(0x04u32)), 2);
    conformance::lemma_at_most(d.attributes, features, o.attributes, d.attributes.len() as int);
    conformance::lemma_at_most(d.commands, features, o.commands, d.commands.len() as int);
    conformance::lemma_at_most(d.events, features, o.events, d.events.len() as int);
}

/// A fabric that is removed takes its clients' registrations along, all of them and no others; the counter stays.
pub proof fn law_a_removed_fabric_takes_its_clients<'a, const F: usize, const P: usize, const N: usize, A: StayActive>(before: IcdManagement<'a, F, P, N, A>, after: IcdManagement<'a, F, P, N, A>, fabric: FabricIndex, x: RegistrationModel)
    requires
        IcdManagement::outlives(&before, &after, Lifecycle::FabricRemoved(fabric)),
    ensures
        after.clients.models().contains(x) == (before.clients.models().contains(x) && x.fabric != fabric),
        after.clients.models() == before.clients.models().filter(|e: RegistrationModel| e.fabric != fabric),
        after.counter == before.counter,
{
    assert(not_of_fabric(fabric) =~= |e: RegistrationModel| e.fabric != fabric);
    bounded::lemma_filter(before.clients.models(), not_of_fabric(fabric));
}

} // verus!
