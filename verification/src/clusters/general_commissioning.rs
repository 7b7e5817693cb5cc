//! General Commissioning, cluster `0x0030`: how a commissioner takes a node through commissioning.
//!
//! What a command leaves to the node is kept for it to take: that a fail-safe ended and has to be
//! undone, or that commissioning is complete and sessions over the passcode have to be closed.

use vstd::prelude::*;

use crate::clusters::basic_information;
use crate::clusters::basic_information::Location;
use crate::clusters::dispatch::Cluster;
use crate::commissioning;
use crate::commissioning::{Cleanup, CommissioningError, FailSafe, Shared, SharedModel, DEFAULT_EXPIRY_SECONDS};
use crate::dm;
use crate::dm::{
    Access, AccessQualities, AttributeDescriptor, AttributeQualities, ClusterDescriptor, ClusterModel, CommandDescriptor,
    Privilege,
};
use crate::im;
use crate::im::{
    AttributeId, ClusterHandler, ClusterId, CommandId, InteractionContext, InvokeAnswer, Lifecycle, ReadAnswer, Reply, Resolved,
    ResolvedCommand, Status, StatusIb, WriteOp,
};
use crate::msg::FabricIndex;
use crate::platform::{Duration, Instant};
use crate::tlv;
use crate::tlv::{Tag, Value};
use crate::walk;
use crate::walk::{Manner, Slot, Want};

verus! {

/// The cluster.
pub const ID: ClusterId = 0x0030;

/// Its revision.
pub const REVISION: u16 = 2;

/// `TC`: terms and conditions.
pub const FEATURE_TERMS_AND_CONDITIONS: u32 = 0x01;

/// `NR`: network recovery.
pub const FEATURE_NETWORK_RECOVERY: u32 = 0x02;

/// `Breadcrumb`.
pub const BREADCRUMB: AttributeId = 0x0000;

/// `BasicCommissioningInfo`.
pub const BASIC_COMMISSIONING_INFO: AttributeId = 0x0001;

/// `RegulatoryConfig`.
pub const REGULATORY_CONFIG: AttributeId = 0x0002;

/// `LocationCapability`.
pub const LOCATION_CAPABILITY: AttributeId = 0x0003;

/// `SupportsConcurrentConnection`.
pub const SUPPORTS_CONCURRENT_CONNECTION: AttributeId = 0x0004;

/// `RecoveryIdentifier`.
pub const RECOVERY_IDENTIFIER: AttributeId = 0x000A;

/// `NetworkRecoveryReason`.
pub const NETWORK_RECOVERY_REASON: AttributeId = 0x000B;

/// `ArmFailSafe`.
pub const ARM_FAIL_SAFE: CommandId = 0x00;

/// `ArmFailSafeResponse`.
pub const ARM_FAIL_SAFE_RESPONSE: CommandId = 0x01;

/// `SetRegulatoryConfig`.
pub const SET_REGULATORY_CONFIG: CommandId = 0x02;

/// `SetRegulatoryConfigResponse`.
pub const SET_REGULATORY_CONFIG_RESPONSE: CommandId = 0x03;

/// `CommissioningComplete`.
pub const COMMISSIONING_COMPLETE: CommandId = 0x04;

/// `CommissioningCompleteResponse`.
pub const COMMISSIONING_COMPLETE_RESPONSE: CommandId = 0x05;

/// For how long a node that lost its network tries to get back before it may ask for help, in
/// seconds.
pub const RECOVERY_HOLD_OFF_SECONDS: u32 = 120;

/// For how long a node arms the fail-safe by itself when help comes, in seconds.
pub const RECOVERY_FAIL_SAFE_SECONDS: u16 = 60;

/// Where a radio is used.
#[derive(Debug, Clone, Copy, PartialEq, Eq, Structural)]
pub enum RegulatoryLocation {
    /// Indoors.
    Indoor,
    /// Outdoors.
    Outdoor,
    /// Both.
    IndoorOutdoor,
}

/// The number of a use.
pub open spec fn location_value(l: RegulatoryLocation) -> u8 {
    match l {
        RegulatoryLocation::Indoor => 0,
        RegulatoryLocation::Outdoor => 1,
        RegulatoryLocation::IndoorOutdoor => 2,
    }
}

/// The use of a number.
pub open spec fn location_of(v: int) -> Option<RegulatoryLocation> {
    if v == 0 {
        Some(RegulatoryLocation::Indoor)
    } else if v == 1 {
        Some(RegulatoryLocation::Outdoor)
    } else if v == 2 {
        Some(RegulatoryLocation::IndoorOutdoor)
    } else {
        None
    }
}

impl RegulatoryLocation {
    /// Its number.
    pub fn value(self) -> (v: u8)
        ensures
            v == location_value(self),
    {
        match self {
            RegulatoryLocation::Indoor => 0,
            RegulatoryLocation::Outdoor => 1,
            RegulatoryLocation::IndoorOutdoor => 2,
        }
    }

    /// The use of a number.
    pub fn from_value(value: u8) -> (l: Option<Self>)
        ensures
            l == location_of(value as int),
    {
        match value {
            0 => Some(RegulatoryLocation::Indoor),
            1 => Some(RegulatoryLocation::Outdoor),
            2 => Some(RegulatoryLocation::IndoorOutdoor),
            _ => None,
        }
    }
}

/// Why a node lost its network.
#[derive(Debug, Clone, Copy, PartialEq, Eq, Structural)]
pub enum NetworkRecoveryReason {
    /// It does not say.
    Unspecified,
    /// Its credentials are not valid.
    Auth,
    /// The network cannot be found.
    Visibility,
}

/// The number of a reason.
pub open spec fn reason_value(r: NetworkRecoveryReason) -> u8 {
    match r {
        NetworkRecoveryReason::Unspecified => 0,
        NetworkRecoveryReason::Auth => 1,
        NetworkRecoveryReason::Visibility => 2,
    }
}

impl NetworkRecoveryReason {
    /// Its number.
    pub fn value(self) -> (v: u8)
        ensures
            v == reason_value(self),
    {
        match self {
            NetworkRecoveryReason::Unspecified => 0,
            NetworkRecoveryReason::Auth => 1,
            NetworkRecoveryReason::Visibility => 2,
        }
    }
}

/// How a node that lost its network asks for help.
#[derive(Debug, Clone, Copy, PartialEq, Eq, Structural)]
pub struct Recovery {
    /// What it is recognised by.
    pub identifier: u64,
    /// When it lost the network, where it did.
    pub lost_at: Option<Instant>,
    /// Why.
    pub reason: Option<NetworkRecoveryReason>,
    /// Whether it asks for help.
    pub announcing: bool,
}

/// Whether a node may ask for help: it lost its network at least two minutes ago.
pub open spec fn announceable(r: Recovery, now: Instant) -> bool {
    r.lost_at matches Some(lost) && now.micros - lost.micros >= RECOVERY_HOLD_OFF_SECONDS * 1_000_000
}

/// A node after it could not reach its network: the first failure counts.
pub open spec fn after_loss(r: Recovery, now: Instant, reason: NetworkRecoveryReason) -> Recovery {
    if r.lost_at is None {
        Recovery { lost_at: Some(now), reason: Some(reason), ..r }
    } else {
        r
    }
}

impl Recovery {
    /// Whether the parts agree: there is a reason exactly where the network is lost, and help is
    /// asked for only then.
    pub open spec fn valid(self) -> bool {
        &&& (self.reason is Some) == (self.lost_at is Some)
        &&& self.announcing ==> self.lost_at is Some
    }

    /// A node whose network works.
    pub fn new(identifier: u64) -> (r: Self)
        ensures
            r == (Recovery { identifier, lost_at: None, reason: None, announcing: false }),
            r.valid(),
    {
        Recovery { identifier, lost_at: None, reason: None, announcing: false }
    }

    /// What it is recognised by.
    pub fn identifier(&self) -> (id: u64)
        ensures
            id == self.identifier,
    {
        self.identifier
    }

    /// Why it lost the network, where it did.
    pub fn reason(&self) -> (r: Option<NetworkRecoveryReason>)
        ensures
            r == self.reason,
    {
        self.reason
    }

    /// Whether it asks for help.
    pub fn is_announcing(&self) -> (r: bool)
        ensures
            r == self.announcing,
    {
        self.announcing
    }

    /// The network cannot be reached.
    pub fn network_lost(&mut self, now: Instant, reason: NetworkRecoveryReason)
        ensures
            *final(self) == after_loss(*old(self), now, reason),
            old(self).valid() ==> final(self).valid(),
    {
        if self.lost_at.is_none() {
            self.lost_at = Some(now);
            self.reason = Some(reason);
        }
    }

    /// The network is back.
    pub fn network_restored(&mut self)
        ensures
            *final(self) == (Recovery { identifier: old(self).identifier, lost_at: None, reason: None, announcing: false }),
            final(self).valid(),
    {
        self.lost_at = None;
        self.reason = None;
        self.announcing = false;
    }

    /// Whether it may ask for help.
    pub fn may_announce(&self, now: Instant) -> (r: bool)
        ensures
            r == announceable(*self, now),
    {
        match self.lost_at {
            Some(lost) => {
                let since: Duration = now.saturating_duration_since(lost);
                since.micros >= RECOVERY_HOLD_OFF_SECONDS as u64 * 1_000_000
            },
            None => false,
        }
    }

    /// Asks for help, where it may.
    pub fn begin_announcing(&mut self, now: Instant) -> (allowed: bool)
        ensures
            allowed == announceable(*old(self), now),
            *final(self) == (Recovery { announcing: old(self).announcing || allowed, ..*old(self) }),
            old(self).valid() ==> final(self).valid(),
    {
        let allowed: bool = self.may_announce(now);
        if allowed {
            self.announcing = true;
        }
        allowed
    }

    /// Whether commissioning may be completed from here: while help is asked for, only over the
    /// operational network.
    pub fn may_complete(&self, over_operational_network: bool) -> (r: bool)
        ensures
            r == (!self.announcing || over_operational_network),
    {
        !self.announcing || over_operational_network
    }
}

/// An attribute that administrators can read.
pub open spec fn admin_attribute(id: AttributeId, qualities: AttributeQualities) -> AttributeDescriptor {
    AttributeDescriptor { id, access: Access::reads(Privilege::Administer), qualities }
}

/// The attributes that are always there.
pub open spec fn basic_attributes() -> Seq<AttributeDescriptor> {
    seq![
        dm::writable(BREADCRUMB, Privilege::Administer, dm::plain_value()),
        dm::readable(BASIC_COMMISSIONING_INFO, dm::fixed_value()),
        dm::readable(REGULATORY_CONFIG, dm::plain_value()),
        dm::readable(LOCATION_CAPABILITY, dm::fixed_value()),
        dm::readable(SUPPORTS_CONCURRENT_CONNECTION, dm::fixed_value()),
    ]
}

/// How the cluster describes itself, with or without network recovery.
pub open spec fn description(recovery: bool) -> ClusterModel {
    ClusterModel {
        id: ID,
        revision: REVISION,
        feature_map: if recovery { FEATURE_NETWORK_RECOVERY } else { 0 },
        attributes: if recovery {
            basic_attributes() + seq![
                admin_attribute(RECOVERY_IDENTIFIER, dm::fixed_value()),
                admin_attribute(NETWORK_RECOVERY_REASON, dm::nullable_value()),
            ]
        } else {
            basic_attributes()
        },
        accepted_commands: seq![
            dm::invocable(ARM_FAIL_SAFE, Privilege::Administer, Some(ARM_FAIL_SAFE_RESPONSE)),
            dm::invocable(SET_REGULATORY_CONFIG, Privilege::Administer, Some(SET_REGULATORY_CONFIG_RESPONSE)),
            CommandDescriptor {
                id: COMMISSIONING_COMPLETE,
                access: Access {
                    qualities: AccessQualities { fabric_scoped: true, fabric_sensitive: false, timed: false },
                    ..Access::invokes(Privilege::Administer)
                },
                response: Some(COMMISSIONING_COMPLETE_RESPONSE),
            },
        ],
        generated_commands: Seq::empty(),
        events: Seq::empty(),
    }
}

fn attributes() -> (a: Vec<AttributeDescriptor>)
    ensures
        a@ == basic_attributes(),
{
    let a: Vec<AttributeDescriptor> = vec![
        AttributeDescriptor::read_write(BREADCRUMB).with_access(
            Access::read_write_with(Privilege::View, Privilege::Administer),
        ),
        AttributeDescriptor::read_only(BASIC_COMMISSIONING_INFO).with_qualities(AttributeQualities::fixed()),
        AttributeDescriptor::read_only(REGULATORY_CONFIG),
        AttributeDescriptor::read_only(LOCATION_CAPABILITY).with_qualities(AttributeQualities::fixed()),
        AttributeDescriptor::read_only(SUPPORTS_CONCURRENT_CONNECTION).with_qualities(AttributeQualities::fixed()),
    ];
    proof {
        assert(a@ =~= basic_attributes());
    }
    a
}

fn commands() -> (c: Vec<CommandDescriptor>)
    ensures
        c@ == description(false).accepted_commands,
{
    let c: Vec<CommandDescriptor> = vec![
        CommandDescriptor::new(ARM_FAIL_SAFE).with_access(Access::invoke(Privilege::Administer)).with_response(
            ARM_FAIL_SAFE_RESPONSE,
        ),
        CommandDescriptor::new(SET_REGULATORY_CONFIG).with_access(Access::invoke(Privilege::Administer)).with_response(
            SET_REGULATORY_CONFIG_RESPONSE,
        ),
        CommandDescriptor::new(COMMISSIONING_COMPLETE).with_access(
            Access::invoke(Privilege::Administer).with_qualities(AccessQualities::fabric_scoped()),
        ).with_response(COMMISSIONING_COMPLETE_RESPONSE),
    ];
    proof {
        assert(c@ =~= description(false).accepted_commands);
    }
    c
}

/// How the cluster describes itself.
pub fn cluster() -> (d: ClusterDescriptor)
    ensures
        d@ == description(false),
{
    ClusterDescriptor {
        id: ID,
        revision: REVISION,
        feature_map: 0,
        attributes: attributes(),
        accepted_commands: commands(),
        generated_commands: Vec::new(),
        events: Vec::new(),
    }
}

/// How the cluster describes itself with network recovery.
pub fn cluster_with_recovery() -> (d: ClusterDescriptor)
    ensures
        d@ == description(true),
{
    let mut all: Vec<AttributeDescriptor> = attributes();
    all.push(
        AttributeDescriptor::read_only(RECOVERY_IDENTIFIER).with_access(Access::read_only(Privilege::Administer)).with_qualities(
            AttributeQualities::fixed(),
        ),
    );
    all.push(
        AttributeDescriptor::read_only(NETWORK_RECOVERY_REASON).with_access(
            Access::read_only(Privilege::Administer),
        ).with_qualities(AttributeQualities::nullable()),
    );
    proof {
        assert(all@ =~= description(true).attributes);
    }
    ClusterDescriptor {
        id: ID,
        revision: REVISION,
        feature_map: FEATURE_NETWORK_RECOVERY,
        attributes: all,
        accepted_commands: commands(),
        generated_commands: Vec::new(),
        events: Vec::new(),
    }
}

/// What `ArmFailSafe` came to.
#[derive(Debug, Clone, Copy, PartialEq, Eq, Structural)]
pub struct ArmFailSafeOutcome {
    /// The answer.
    pub error: CommissioningError,
    /// What is to be undone.
    pub cleanup: Option<Cleanup>,
}

/// What `CommissioningComplete` came to.
#[derive(Debug, Clone, Copy, PartialEq, Eq, Structural)]
pub struct Completion {
    /// The answer.
    pub error: CommissioningError,
    /// Whether sessions over the passcode are to be closed.
    pub close_pase_sessions: bool,
    /// What is to be undone of a fail-safe that had lapsed.
    pub cleanup: Option<Cleanup>,
}

/// What a command leaves to the node.
#[derive(Debug, Clone, Copy, PartialEq, Eq, Structural)]
pub enum Aftermath {
    /// A fail-safe ended: this is to be undone.
    Rollback(Cleanup),
    /// Commissioning is complete: sessions over the passcode are to be closed.
    Commissioned,
}

/// What commands change.
pub struct State {
    /// The window and the fail-safe.
    pub shared: SharedModel,
    /// The region.
    pub location: (u8, u8),
    /// Where radios are used.
    pub regulatory: RegulatoryLocation,
    /// What is left to the node.
    pub aftermath: Option<Aftermath>,
}

/// What `ArmFailSafe` comes to.
pub open spec fn fail_safe_armed(
    m: State,
    seconds: u16,
    breadcrumb: u64,
    fabric: Option<FabricIndex>,
    over_case: bool,
    now: Instant,
) -> (State, ArmFailSafeOutcome) {
    let priority = commissioning::open_at(m.shared.window, now) is Some && over_case;
    let (fail_safe, error, cleanup) = commissioning::armed(m.shared.fail_safe, seconds, breadcrumb, fabric, now, priority);
    (State { shared: SharedModel { fail_safe, ..m.shared }, ..m }, ArmFailSafeOutcome { error, cleanup })
}

/// What `SetRegulatoryConfig` comes to: the region is set first, also where the use is not possible.
pub open spec fn regulated(
    m: State,
    capability: RegulatoryLocation,
    config: RegulatoryLocation,
    country: Seq<char>,
    breadcrumb: u64,
) -> (State, CommissioningError) {
    match basic_information::region(country) {
        None => (m, CommissioningError::ValueOutsideRange),
        Some(location) => if !(capability is IndoorOutdoor) && config != capability {
            (State { location, ..m }, CommissioningError::ValueOutsideRange)
        } else {
            (
                State {
                    location,
                    regulatory: config,
                    shared: SharedModel { fail_safe: FailSafe { breadcrumb, ..m.shared.fail_safe }, ..m.shared },
                    ..m
                },
                CommissioningError::Success,
            )
        },
    }
}

/// What `CommissioningComplete` comes to: on success the window is closed.
pub open spec fn commissioned(m: State, over_case: bool, fabric: Option<FabricIndex>, now: Instant) -> (State, Completion) {
    let (fail_safe, error, cleanup) = commissioning::completed(m.shared.fail_safe, over_case, fabric, now);
    (
        State {
            shared: SharedModel { fail_safe, window: if error is Success { None } else { m.shared.window } },
            ..m
        },
        Completion { error, close_pase_sessions: error is Success, cleanup },
    )
}

/// The fields of `ArmFailSafe`, one by one.
pub open spec fn arm_slots() -> Seq<Slot> {
    seq![Slot(0, Want::Unsigned(0xFFFF)), Slot(1, Want::Unsigned(u64::MAX))]
}

/// The fields of `SetRegulatoryConfig`, one by one.
pub open spec fn regulatory_slots() -> Seq<Slot> {
    seq![Slot(0, Want::Unsigned(2)), Slot(1, Want::Text), Slot(2, Want::Unsigned(u64::MAX))]
}

/// For how long `ArmFailSafe` asks and its breadcrumb, or what is wrong with it.
pub open spec fn arm_decoded(fields: Option<Seq<u8>>) -> Result<(u16, u64), Status> {
    match fields {
        None => Err(Status::InvalidCommand),
        Some(b) => match walk::walked(b, arm_slots(), walk::strict()) {
            Err(status) => Err(status),
            Ok(items) => match walk::num(items, 1) {
                None => Err(Status::InvalidCommand),
                Some(breadcrumb) => Ok(
                    (
                        match walk::num(items, 0) {
                            Some(seconds) => seconds as u16,
                            None => DEFAULT_EXPIRY_SECONDS,
                        },
                        breadcrumb,
                    ),
                ),
            },
        },
    }
}

/// The use, the region and the breadcrumb of `SetRegulatoryConfig`, or what is wrong with it.
pub open spec fn regulatory_decoded(fields: Option<Seq<u8>>) -> Result<(RegulatoryLocation, Seq<char>, u64), Status> {
    match fields {
        None => Err(Status::InvalidCommand),
        Some(b) => match walk::walked(b, regulatory_slots(), walk::strict()) {
            Err(status) => Err(status),
            Ok(items) => match (walk::num(items, 0), walk::text(b, items, 1), walk::num(items, 2)) {
                (Some(config), Some(country), Some(breadcrumb)) => match location_of(config as int) {
                    Some(config) => Ok((config, country, breadcrumb)),
                    None => Err(Status::ConstraintError),
                },
                _ => Err(Status::InvalidCommand),
            },
        },
    }
}

/// The response that the commands share: the answer, and a text for developers that is always empty.
pub open spec fn response_bytes(tag: Tag, error: CommissioningError) -> Seq<u8> {
    tlv::structure_bytes(
        tag,
        tlv::unsigned_bytes(Tag::Context(0), commissioning::error_value(error) as u64) + tlv::text_bytes(
            Tag::Context(1),
            Seq::empty(),
        ),
    )
}

/// A command that is answered with a response.
pub open spec fn responded(response: CommandId, tag: Tag, error: CommissioningError) -> InvokeAnswer {
    Ok((Some(response), response_bytes(tag, error)))
}

/// What a command comes to.
pub open spec fn commanded(
    m: State,
    capability: RegulatoryLocation,
    command: CommandId,
    fields: Option<Seq<u8>>,
    ctx: InteractionContext,
    tag: Tag,
) -> (State, InvokeAnswer) {
    if command == ARM_FAIL_SAFE {
        match arm_decoded(fields) {
            Err(status) => (m, im::refused(status)),
            Ok((seconds, breadcrumb)) => {
                let (after, outcome) = fail_safe_armed(
                    m,
                    seconds,
                    breadcrumb,
                    ctx.fabric_index,
                    ctx.fabric_index is Some,
                    ctx.now,
                );
                (
                    match outcome.cleanup {
                        Some(cleanup) => State { aftermath: Some(Aftermath::Rollback(cleanup)), ..after },
                        None => after,
                    },
                    responded(ARM_FAIL_SAFE_RESPONSE, tag, outcome.error),
                )
            },
        }
    } else if command == SET_REGULATORY_CONFIG {
        match regulatory_decoded(fields) {
            Err(status) => (m, im::refused(status)),
            Ok((config, country, breadcrumb)) => {
                let (after, error) = regulated(m, capability, config, country, breadcrumb);
                (after, responded(SET_REGULATORY_CONFIG_RESPONSE, tag, error))
            },
        }
    } else if command == COMMISSIONING_COMPLETE {
        let (after, completion) = commissioned(m, ctx.fabric_index is Some, ctx.fabric_index, ctx.now);
        (
            match completion.cleanup {
                Some(cleanup) => State { aftermath: Some(Aftermath::Rollback(cleanup)), ..after },
                None => if completion.close_pase_sessions {
                    State { aftermath: Some(Aftermath::Commissioned), ..after }
                } else {
                    after
                },
            },
            responded(COMMISSIONING_COMPLETE_RESPONSE, tag, completion.error),
        )
    } else {
        (m, im::refused(Status::UnsupportedCommand))
    }
}

/// The number that a write gives, or why it is refused.
pub open spec fn number_written(b: Seq<u8>) -> Result<u64, Status> {
    match tlv::element_at(b, 0) {
        Some((e, _)) => match e.value {
            Value::Unsigned(v) => Ok(v),
            _ => Err(Status::InvalidDataType),
        },
        None => Err(Status::InvalidDataType),
    }
}

struct ArmFailSafeRequest {
    expiry_length_seconds: u16,
    breadcrumb: u64,
}

impl ArmFailSafeRequest {
    fn decode(fields: Option<&[u8]>) -> (r: Result<ArmFailSafeRequest, Status>)
        ensures
            match r {
                Ok(q) => arm_decoded(im::octets(fields)) == Ok::<(u16, u64), Status>((q.expiry_length_seconds, q.breadcrumb)),
                Err(status) => arm_decoded(im::octets(fields)) == Err::<(u16, u64), Status>(status),
            },
    {
        let data: &[u8] = match fields {
            None => return Err(Status::InvalidCommand),
            Some(data) => data,
        };
        let slots: Vec<Slot> = vec![Slot(0, Want::Unsigned(0xFFFF)), Slot(1, Want::Unsigned(u64::MAX))];
        proof {
            assert(slots@ =~= arm_slots());
        }
        match walk::walk(data, &slots, Manner::strict()) {
            Err(status) => Err(status),
            Ok(walked) => match walked.num(1) {
                None => Err(Status::InvalidCommand),
                Some(breadcrumb) => {
                    let expiry_length_seconds: u16 = match walked.num(0) {
                        Some(seconds) => seconds as u16,
                        None => DEFAULT_EXPIRY_SECONDS,
                    };
                    Ok(ArmFailSafeRequest { expiry_length_seconds, breadcrumb })
                },
            },
        }
    }
}

struct SetRegulatoryConfigRequest<'a> {
    new_config: RegulatoryLocation,
    country_code: &'a str,
    breadcrumb: u64,
}

impl<'a> SetRegulatoryConfigRequest<'a> {
    fn decode(fields: Option<&'a [u8]>) -> (r: Result<SetRegulatoryConfigRequest<'a>, Status>)
        ensures
            match r {
                Ok(q) => regulatory_decoded(im::octets(fields)) == Ok::<(RegulatoryLocation, Seq<char>, u64), Status>(
                    (q.new_config, q.country_code@, q.breadcrumb),
                ),
                Err(status) => regulatory_decoded(im::octets(fields)) == Err::<
                    (RegulatoryLocation, Seq<char>, u64),
                    Status,
                >(status),
            },
    {
        let data: &'a [u8] = match fields {
            None => return Err(Status::InvalidCommand),
            Some(data) => data,
        };
        let slots: Vec<Slot> = vec![
            Slot(0, Want::Unsigned(2)),
            Slot(1, Want::Text),
            Slot(2, Want::Unsigned(u64::MAX)),
        ];
        proof {
            assert(slots@ =~= regulatory_slots());
        }
        match walk::walk(data, &slots, Manner::strict()) {
            Err(status) => Err(status),
            Ok(walked) => match (walked.num(0), walked.text(1), walked.num(2)) {
                (Some(config), Some(country_code), Some(breadcrumb)) => {
                    if config > 2 {
                        return Err(Status::ConstraintError);
                    }
                    match RegulatoryLocation::from_value(config as u8) {
                        None => Err(Status::ConstraintError),
                        Some(new_config) => Ok(SetRegulatoryConfigRequest { new_config, country_code, breadcrumb }),
                    }
                },
                _ => Err(Status::InvalidCommand),
            },
        }
    }
}

fn write_error_response(tag: Tag, error: CommissioningError) -> (out: Vec<u8>)
    ensures
        out@ == response_bytes(tag, error),
{
    let mut body: Vec<u8> = Vec::new();
    tlv::put_unsigned(&mut body, Tag::Context(0), error.value() as u64);
    tlv::put_text(&mut body, Tag::Context(1), "");
    let mut out: Vec<u8> = Vec::new();
    tlv::put_structure(&mut out, tag, &body);
    proof {
        reveal_strlit("");
        assert(""@ =~= Seq::<char>::empty());
        assert(body@ =~= tlv::unsigned_bytes(Tag::Context(0), commissioning::error_value(error) as u64) + tlv::text_bytes(
            Tag::Context(1),
            Seq::empty(),
        ));
        assert(out@ =~= response_bytes(tag, error));
    }
    out
}

/// The General Commissioning cluster.
pub struct GeneralCommissioning {
    /// The region.
    pub location: Location,
    /// Where radios can be used.
    pub location_capability: RegulatoryLocation,
    /// Whether the node can be reached over two networks at once.
    pub supports_concurrent_connection: bool,
    /// The window and the fail-safe.
    pub shared: Shared,
    /// Where radios are used.
    pub regulatory_config: RegulatoryLocation,
    /// How the node asks for help, where it can.
    pub recovery: Option<Recovery>,
    /// What is left to the node.
    pub aftermath: Option<Aftermath>,
}

/// What an attribute is answered with.
pub open spec fn attribute_answer(c: GeneralCommissioning, id: AttributeId, tag: Tag) -> ReadAnswer {
    if id == BREADCRUMB {
        Ok(tlv::unsigned_bytes(tag, c.shared.fail_safe.breadcrumb))
    } else if id == BASIC_COMMISSIONING_INFO {
        Ok(
            tlv::structure_bytes(
                tag,
                tlv::unsigned_bytes(Tag::Context(0), c.shared.fail_safe.info.expiry_length_seconds as u64)
                    + tlv::unsigned_bytes(Tag::Context(1), c.shared.fail_safe.info.max_cumulative_seconds as u64),
            ),
        )
    } else if id == REGULATORY_CONFIG {
        Ok(tlv::unsigned_bytes(tag, location_value(c.regulatory_config) as u64))
    } else if id == LOCATION_CAPABILITY {
        Ok(tlv::unsigned_bytes(tag, location_value(c.location_capability) as u64))
    } else if id == SUPPORTS_CONCURRENT_CONNECTION {
        Ok(tlv::bool_bytes(tag, c.supports_concurrent_connection))
    } else if id == RECOVERY_IDENTIFIER {
        match c.recovery {
            Some(r) => Ok(tlv::unsigned_bytes(tag, r.identifier)),
            None => Err(Status::UnsupportedAttribute),
        }
    } else if id == NETWORK_RECOVERY_REASON {
        match c.recovery {
            Some(r) => Ok(
                tlv::nullable_bytes(
                    tag,
                    match r.reason {
                        Some(reason) => Some(reason_value(reason) as u64),
                        None => None,
                    },
                ),
            ),
            None => Err(Status::UnsupportedAttribute),
        }
    } else {
        Err(Status::UnsupportedAttribute)
    }
}

impl GeneralCommissioning {
    /// What commands change.
    pub open spec fn state(&self) -> State {
        State {
            shared: self.shared@,
            location: self.location.code,
            regulatory: self.regulatory_config,
            aftermath: self.aftermath,
        }
    }

    /// Whether nothing but what commands change differs.
    pub open spec fn same_device(&self, other: &Self) -> bool {
        &&& self.location_capability == other.location_capability
        &&& self.supports_concurrent_connection == other.supports_concurrent_connection
        &&& self.recovery == other.recovery
    }

    /// A cluster for a node that can use its radios in these places, and does.
    pub fn new(location: Location, location_capability: RegulatoryLocation, shared: Shared) -> (c: Self)
        ensures
            c.state() == (State {
                shared: shared@,
                location: location.code,
                regulatory: location_capability,
                aftermath: None,
            }),
            c.location_capability == location_capability,
            c.supports_concurrent_connection,
            c.recovery is None,
    {
        GeneralCommissioning {
            location,
            location_capability,
            supports_concurrent_connection: true,
            shared,
            regulatory_config: location_capability,
            recovery: None,
            aftermath: None,
        }
    }

    /// The same with network recovery.
    pub fn with_recovery(self, recovery: Recovery) -> (c: Self)
        ensures
            c == (GeneralCommissioning { recovery: Some(recovery), ..self }),
    {
        GeneralCommissioning { recovery: Some(recovery), ..self }
    }

    /// The same on a node that can be reached over one network at a time.
    pub fn without_concurrent_connection(self) -> (c: Self)
        ensures
            c == (GeneralCommissioning { supports_concurrent_connection: false, ..self }),
    {
        GeneralCommissioning { supports_concurrent_connection: false, ..self }
    }

    /// The fail-safe.
    pub fn fail_safe(&self) -> (f: &FailSafe)
        ensures
            *f == self.shared.fail_safe,
    {
        &self.shared.fail_safe
    }

    /// The fail-safe, to be moved on.
    pub fn fail_safe_mut(&mut self) -> (f: &mut FailSafe)
        ensures
            *f == old(self).shared.fail_safe,
            final(self).state() == (State {
                shared: SharedModel { fail_safe: *final(f), ..old(self).shared@ },
                ..old(self).state()
            }),
            final(self).same_device(old(self)),
    {
        &mut self.shared.fail_safe
    }

    /// Where radios are used.
    pub fn regulatory_config(&self) -> (l: RegulatoryLocation)
        ensures
            l == self.regulatory_config,
    {
        self.regulatory_config
    }

    /// Whether a window is open at a moment.
    pub fn is_window_open(&self, now: Instant) -> (r: bool)
        ensures
            r == (commissioning::open_at(self.shared@.window, now) is Some),
    {
        self.shared.window.open(now).is_some()
    }

    /// Takes what is left to the node.
    pub fn take_aftermath(&mut self) -> (a: Option<Aftermath>)
        ensures
            a == old(self).aftermath,
            final(self).state() == (State { aftermath: None, ..old(self).state() }),
            final(self).same_device(old(self)),
    {
        let a: Option<Aftermath> = self.aftermath;
        self.aftermath = None;
        a
    }

    /// `ArmFailSafe`.
    pub fn arm_fail_safe(
        &mut self,
        expiry_length_seconds: u16,
        breadcrumb: u64,
        accessing_fabric: Option<FabricIndex>,
        over_case: bool,
        now: Instant,
    ) -> (r: ArmFailSafeOutcome)
        ensures
            (final(self).state(), r) == fail_safe_armed(
                old(self).state(),
                expiry_length_seconds,
                breadcrumb,
                accessing_fabric,
                over_case,
                now,
            ),
            final(self).same_device(old(self)),
    {
        let priority: bool = self.is_window_open(now) && over_case;
        let (error, cleanup): (CommissioningError, Option<Cleanup>) = self.shared.fail_safe.arm(
            expiry_length_seconds,
            breadcrumb,
            accessing_fabric,
            now,
            priority,
        );
        ArmFailSafeOutcome { error, cleanup }
    }

    /// `SetRegulatoryConfig`.
    pub fn set_regulatory_config(&mut self, new_config: RegulatoryLocation, country_code: &str, breadcrumb: u64) -> (r:
        CommissioningError)
        ensures
            (final(self).state(), r) == regulated(
                old(self).state(),
                old(self).location_capability,
                new_config,
                country_code@,
                breadcrumb,
            ),
            final(self).same_device(old(self)),
    {
        if self.location.set(country_code).is_err() {
            return CommissioningError::ValueOutsideRange;
        }
        if self.location_capability != RegulatoryLocation::IndoorOutdoor && new_config != self.location_capability {
            return CommissioningError::ValueOutsideRange;
        }
        self.regulatory_config = new_config;
        self.shared.fail_safe.set_breadcrumb(breadcrumb);
        CommissioningError::Success
    }

    /// `CommissioningComplete`.
    pub fn commissioning_complete(&mut self, over_case: bool, accessing_fabric: Option<FabricIndex>, now: Instant) -> (r:
        Completion)
        ensures
            (final(self).state(), r) == commissioned(old(self).state(), over_case, accessing_fabric, now),
            final(self).same_device(old(self)),
    {
        let (error, cleanup): (CommissioningError, Option<Cleanup>) = self.shared.fail_safe.complete(
            over_case,
            accessing_fabric,
            now,
        );
        if error.is_ok() {
            self.shared.window.close();
        }
        Completion { error, close_pase_sessions: error.is_ok(), cleanup }
    }

    /// Takes the node's window and fail-safe to work on, and gives back those it had: they are the
    /// node's, and more than one cluster works on them.
    pub fn exchange(&mut self, shared: &mut Shared)
        ensures
            *final(self) == (GeneralCommissioning { shared: *old(shared), ..*old(self) }),
            *final(shared) == old(self).shared,
    {
        std::mem::swap(&mut self.shared, shared);
    }
}

impl Cluster for GeneralCommissioning {
    const ID: ClusterId = ID;
}

impl ClusterHandler for GeneralCommissioning {
    open spec fn answers(&self, resolved: Resolved, ctx: InteractionContext, tag: Tag, a: ReadAnswer) -> bool {
        a == attribute_answer(*self, resolved.attribute, tag)
    }

    open spec fn writes(
        before: &Self,
        after: &Self,
        resolved: Resolved,
        data: Seq<u8>,
        op: WriteOp,
        ctx: InteractionContext,
        r: Result<(), Status>,
    ) -> bool {
        if resolved.attribute != BREADCRUMB {
            *after == *before && r == Err::<(), Status>(Status::UnsupportedWrite)
        } else {
            match number_written(data) {
                Err(status) => *after == *before && r == Err::<(), Status>(status),
                Ok(v) => r == Ok::<(), Status>(()) && after.same_device(before) && after.state() == (State {
                    shared: SharedModel {
                        fail_safe: FailSafe { breadcrumb: v, ..before.shared.fail_safe },
                        ..before.shared@
                    },
                    ..before.state()
                }),
            }
        }
    }

    open spec fn invokes(
        before: &Self,
        after: &Self,
        resolved: ResolvedCommand,
        fields: Option<Seq<u8>>,
        ctx: InteractionContext,
        tag: Tag,
        a: InvokeAnswer,
    ) -> bool {
        &&& after.same_device(before)
        &&& (after.state(), a) == commanded(
            before.state(),
            before.location_capability,
            resolved.command,
            fields,
            ctx,
            tag,
        )
    }

    open spec fn outlives(before: &Self, after: &Self, event: Lifecycle) -> bool {
        *after == *before
    }

    open spec fn unfit(&self, resolved: ResolvedCommand) -> Status {
        Status::ResourceExhausted
    }

    fn answer(&self, resolved: &Resolved, ctx: &InteractionContext, tag: Tag) -> (a: Result<Vec<u8>, Status>) {
        let mut out: Vec<u8> = Vec::new();
        match resolved.attribute {
            BREADCRUMB => tlv::put_unsigned(&mut out, tag, self.shared.fail_safe.breadcrumb()),
            BASIC_COMMISSIONING_INFO => {
                let mut body: Vec<u8> = Vec::new();
                tlv::put_unsigned(&mut body, Tag::Context(0), self.shared.fail_safe.info.expiry_length_seconds as u64);
                tlv::put_unsigned(&mut body, Tag::Context(1), self.shared.fail_safe.info.max_cumulative_seconds as u64);
                tlv::put_structure(&mut out, tag, &body);
                proof {
                    assert(body@ =~= tlv::unsigned_bytes(
                        Tag::Context(0),
                        self.shared.fail_safe.info.expiry_length_seconds as u64,
                    ) + tlv::unsigned_bytes(Tag::Context(1), self.shared.fail_safe.info.max_cumulative_seconds as u64));
                }
            },
            REGULATORY_CONFIG => tlv::put_unsigned(&mut out, tag, self.regulatory_config.value() as u64),
            LOCATION_CAPABILITY => tlv::put_unsigned(&mut out, tag, self.location_capability.value() as u64),
            SUPPORTS_CONCURRENT_CONNECTION => tlv::put_bool(&mut out, tag, self.supports_concurrent_connection),
            RECOVERY_IDENTIFIER => match &self.recovery {
                None => return Err(Status::UnsupportedAttribute),
                Some(r) => tlv::put_unsigned(&mut out, tag, r.identifier()),
            },
            NETWORK_RECOVERY_REASON => match &self.recovery {
                None => return Err(Status::UnsupportedAttribute),
                Some(r) => {
                    let reason: Option<u64> = match r.reason() {
                        Some(reason) => Some(reason.value() as u64),
                        None => None,
                    };
                    tlv::put_nullable(&mut out, tag, reason);
                },
            },
            _ => return Err(Status::UnsupportedAttribute),
        }
        proof {
            let expected = attribute_answer(*self, resolved.attribute, tag);
            assert(out@ =~= expected->Ok_0);
        }
        Ok(out)
    }

    fn write(&mut self, resolved: &Resolved, data: &[u8], op: WriteOp, ctx: &InteractionContext) -> (r: Result<(), Status>) {
        match resolved.attribute {
            BREADCRUMB => match tlv::read_element(data, 0) {
                None => Err(Status::InvalidDataType),
                Some((e, _)) => match e.value {
                    Value::Unsigned(v) => {
                        self.shared.fail_safe.set_breadcrumb(v);
                        Ok(())
                    },
                    _ => Err(Status::InvalidDataType),
                },
            },
            _ => Err(Status::UnsupportedWrite),
        }
    }

    fn perform(
        &mut self,
        resolved: &ResolvedCommand,
        fields: Option<&[u8]>,
        ctx: &InteractionContext,
        tag: Tag,
    ) -> (a: Result<Reply, StatusIb>) {
        match resolved.command {
            ARM_FAIL_SAFE => match ArmFailSafeRequest::decode(fields) {
                Err(status) => im::refuse(status),
                Ok(request) => {
                    let outcome: ArmFailSafeOutcome = self.arm_fail_safe(
                        request.expiry_length_seconds,
                        request.breadcrumb,
                        ctx.fabric_index,
                        ctx.fabric_index.is_some(),
                        ctx.now,
                    );
                    if let Some(cleanup) = outcome.cleanup {
                        self.aftermath = Some(Aftermath::Rollback(cleanup));
                    }
                    im::respond(ARM_FAIL_SAFE_RESPONSE, write_error_response(tag, outcome.error))
                },
            },
            SET_REGULATORY_CONFIG => match SetRegulatoryConfigRequest::decode(fields) {
                Err(status) => im::refuse(status),
                Ok(request) => {
                    let error: CommissioningError = self.set_regulatory_config(
                        request.new_config,
                        request.country_code,
                        request.breadcrumb,
                    );
                    im::respond(SET_REGULATORY_CONFIG_RESPONSE, write_error_response(tag, error))
                },
            },
            COMMISSIONING_COMPLETE => {
                let completion: Completion = self.commissioning_complete(
                    ctx.fabric_index.is_some(),
                    ctx.fabric_index,
                    ctx.now,
                );
                match completion.cleanup {
                    Some(cleanup) => {
                        self.aftermath = Some(Aftermath::Rollback(cleanup));
                    },
                    None => {
                        if completion.close_pase_sessions {
                            self.aftermath = Some(Aftermath::Commissioned);
                        }
                    },
                }
                im::respond(COMMISSIONING_COMPLETE_RESPONSE, write_error_response(tag, completion.error))
            },
            _ => im::refuse(Status::UnsupportedCommand),
        }
    }

    fn on_lifecycle(&mut self, event: Lifecycle) {
    }

    fn unfit_status(&self, resolved: &ResolvedCommand) -> (s: Status) {
        Status::ResourceExhausted
    }
}

/// A response tells which error it is about.
pub proof fn law_the_response_tells_the_error(tag: Tag, a: CommissioningError, b: CommissioningError)
    ensures
        response_bytes(tag, a) == response_bytes(tag, b) <==> a == b,
{
    let at = tlv::header(tag, 0x15).len() as int + 2;
    reveal_with_fuel(tlv::le_bytes, 2);
    assert(response_bytes(tag, a)[at] == commissioning::error_value(a));
    assert(response_bytes(tag, b)[at] == commissioning::error_value(b));
}

/// A number stands for a use exactly where it is the number of that use.
pub proof fn law_location_round_trip(l: RegulatoryLocation, v: u8)
    ensures
        location_of(location_value(l) as int) == Some(l),
        location_of(v as int) matches Some(l) ==> location_value(l) == v,
        v > 2 ==> location_of(v as int) is None,
{
}

/// However often a node finds its network lost, the time and the reason of the first loss count, so
/// that trying again never puts off when it may ask for help.
pub proof fn law_the_first_loss_counts(
    r: Recovery,
    first: Instant,
    why: NetworkRecoveryReason,
    again: Instant,
    other: NetworkRecoveryReason,
    now: Instant,
)
    ensures
        after_loss(after_loss(r, first, why), again, other) == after_loss(r, first, why),
        r.lost_at is None && now.micros >= first.micros + 120_000_000 ==> announceable(
            after_loss(after_loss(r, first, why), again, other),
            now,
        ),
        r.lost_at is None && now.micros < first.micros + 120_000_000 ==> !announceable(after_loss(r, first, why), now),
{
}

/// A regulatory configuration that is refused leaves the configuration, the breadcrumb, the window
/// and what is left to the node as they were.
pub proof fn law_a_refused_configuration_keeps_the_breadcrumb(
    m: State,
    capability: RegulatoryLocation,
    config: RegulatoryLocation,
    country: Seq<char>,
    breadcrumb: u64,
)
    ensures
        ({
            let (after, error) = regulated(m, capability, config, country, breadcrumb);
            if error is Success {
                &&& after.regulatory == config
                &&& after.shared.fail_safe.breadcrumb == breadcrumb
                &&& basic_information::region(country) == Some(after.location)
                &&& capability is IndoorOutdoor || config == capability
            } else {
                &&& after.regulatory == m.regulatory
                &&& after.shared == m.shared
                &&& after.aftermath == m.aftermath
            }
        }),
{
}

/// A node never uses its radios where it cannot, whatever it is told.
pub proof fn law_the_capability_bounds_the_configuration(
    m: State,
    capability: RegulatoryLocation,
    command: CommandId,
    fields: Option<Seq<u8>>,
    ctx: InteractionContext,
    tag: Tag,
)
    requires
        capability is IndoorOutdoor || m.regulatory == capability,
    ensures
        ({
            let after = commanded(m, capability, command, fields, ctx, tag).0;
            capability is IndoorOutdoor || after.regulatory == capability
        }),
{
}

/// Completion closes the window, ends the fail-safe and resets the breadcrumb, and has sessions over
/// the passcode closed; a completion that is refused leaves the window alone.
pub proof fn law_completion_closes_the_window(m: State, over_case: bool, fabric: Option<FabricIndex>, now: Instant)
    ensures
        ({
            let (after, completion) = commissioned(m, over_case, fabric, now);
            &&& completion.close_pase_sessions == (completion.error is Success)
            &&& if completion.error is Success {
                after.shared.window is None && after.shared.fail_safe.context is None && after.shared.fail_safe.breadcrumb == 0
            } else {
                after.shared.window == m.shared.window
            }
        }),
{
}

/// What a command has to undo is never lost: where a fail-safe ended without completion, that is
/// left to the node.
pub proof fn law_what_ended_is_left_to_the_node(
    m: State,
    capability: RegulatoryLocation,
    command: CommandId,
    fields: Option<Seq<u8>>,
    ctx: InteractionContext,
    tag: Tag,
)
    requires
        m.shared.fail_safe.context is Some,
    ensures
        ({
            let after = commanded(m, capability, command, fields, ctx, tag).0;
            after.shared.fail_safe.context is None ==> after.aftermath == Some(
                Aftermath::Rollback(commissioning::cleanup_of(m.shared.fail_safe.context->0)),
            ) || after.aftermath == Some(Aftermath::Commissioned)
        }),
{
}

/// Whether an answer is a response of a commissioning command with this error and no text for developers.
pub open spec fn answers_with(a: InvokeAnswer, response: CommandId, tag: Tag, error: u64) -> bool {
    a == Ok::<(Option<CommandId>, Seq<u8>), StatusIb>(
        (
            Some(response),
            tlv::structure_bytes(
                tag,
                tlv::unsigned_bytes(Tag::Context(0), error) + tlv::text_bytes(Tag::Context(1), Seq::empty()),
            ),
        ),
    )
}

/// The moment so many seconds after another, or an earlier one that it may not go beyond.
pub open spec fn ends_at(t: Instant, now: Instant, seconds: int, limit: int) -> bool {
    now.micros + seconds * 1_000_000 <= u64::MAX ==> t.micros == (if now.micros + seconds * 1_000_000 <= limit {
        now.micros + seconds * 1_000_000
    } else {
        limit
    })
}

/// `ArmFailSafe` arms the fail-safe for as long as it says, fifteen minutes where it does not, but never beyond the limit
/// that it got when it was first armed, notes the breadcrumb, and ends it where it says zero. While it is armed only the
/// fabric that armed it moves it on; while it is not, an open window keeps it from every fabric. What a fail-safe that ends
/// leaves to be undone is left to the node.
pub proof fn law_a_fail_safe_is_armed_as_asked(
    before: GeneralCommissioning,
    after: GeneralCommissioning,
    resolved: ResolvedCommand,
    b: Seq<u8>,
    items: Seq<tlv::Element>,
    breadcrumb: u64,
    ctx: InteractionContext,
    tag: Tag,
    a: InvokeAnswer,
)
    requires
        GeneralCommissioning::invokes(&before, &after, resolved, Some(b), ctx, tag, a),
        resolved.command == 0x00,
        walk::walked(b, seq![Slot(0, Want::Unsigned(0xFFFF)), Slot(1, Want::Unsigned(u64::MAX))], walk::strict()) == Ok::<
            Seq<tlv::Element>,
            Status,
        >(items),
        walk::num(items, 1) == Some(breadcrumb),
        walk::num(items, 0) matches Some(s) ==> s <= 0xFFFF,
    ensures
        after.shared@.window == before.shared@.window,
        after.regulatory_config == before.regulatory_config,
        after.location.code == before.location.code,
        ({
            let seconds = if walk::num(items, 0) is Some { walk::num(items, 0)->Some_0 as int } else { 900 };
            let (f, g) = (before.shared.fail_safe, after.shared.fail_safe);
            let live = f.context is Some && ctx.now.micros < f.context->Some_0.deadline.micros;
            let window = before.shared@.window is Some && ctx.now.micros < before.shared@.window->Some_0.expires_at.micros;
            let undone = |c: Cleanup|
                f.context matches Some(was) && c.fabric_index == was.fabric_index && c.added == was.added && c.updated
                    == was.updated && c.root_added == was.root_added;
            &&& g.info == f.info
            &&& if live {
                let was = f.context->Some_0;
                if was.fabric_index != ctx.fabric_index {
                    answers_with(a, 0x01, tag, 4) && g == f && after.aftermath == before.aftermath
                } else if seconds == 0 {
                    &&& answers_with(a, 0x01, tag, 0)
                    &&& g.context is None && g.breadcrumb == 0
                    &&& after.aftermath matches Some(Aftermath::Rollback(c)) && undone(c)
                } else {
                    &&& answers_with(a, 0x01, tag, 0)
                    &&& g.breadcrumb == breadcrumb
                    &&& g.context matches Some(next) && next == (crate::commissioning::Armed { deadline: next.deadline, ..was }) && ends_at(
                        next.deadline,
                        ctx.now,
                        seconds,
                        was.limit.micros as int,
                    )
                    &&& after.aftermath == before.aftermath
                }
            } else {
                &&& f.context is Some ==> (after.aftermath matches Some(Aftermath::Rollback(c)) && undone(c))
                &&& f.context is None ==> after.aftermath == before.aftermath
                &&& if window && ctx.fabric_index is Some {
                    answers_with(a, 0x01, tag, 4) && g.context is None
                } else if seconds == 0 {
                    answers_with(a, 0x01, tag, 0) && g.context is None
                } else {
                    &&& answers_with(a, 0x01, tag, 0)
                    &&& g.breadcrumb == breadcrumb
                    &&& g.context matches Some(next) && next.fabric_index == ctx.fabric_index && next.added is None && next.updated is None
                        && !next.root_added && ends_at(next.deadline, ctx.now, seconds, next.limit.micros as int) && (ctx.now.micros
                        + f.info.max_cumulative_seconds * 1_000_000 <= u64::MAX ==> next.limit.micros == ctx.now.micros
                        + f.info.max_cumulative_seconds * 1_000_000)
                }
            }
        }),
{
    assert(arm_slots() =~= seq![Slot(0, Want::Unsigned(0xFFFF)), Slot(1, Want::Unsigned(u64::MAX))]);
}

/// `SetRegulatoryConfig` takes over the region of two letters, the use of radios and the breadcrumb that it gives where the node
/// can use them so; where it cannot, it says so and keeps the use and the breadcrumb; and a region that is none changes
/// nothing.
pub proof fn law_a_regulatory_configuration_is_taken_over(
    before: GeneralCommissioning,
    after: GeneralCommissioning,
    resolved: ResolvedCommand,
    b: Seq<u8>,
    items: Seq<tlv::Element>,
    config: u64,
    country: Seq<char>,
    breadcrumb: u64,
    ctx: InteractionContext,
    tag: Tag,
    a: InvokeAnswer,
)
    requires
        GeneralCommissioning::invokes(&before, &after, resolved, Some(b), ctx, tag, a),
        resolved.command == 0x02,
        walk::walked(
            b,
            seq![Slot(0, Want::Unsigned(2)), Slot(1, Want::Text), Slot(2, Want::Unsigned(u64::MAX))],
            walk::strict(),
        ) == Ok::<Seq<tlv::Element>, Status>(items),
        walk::num(items, 0) == Some(config),
        walk::text(b, items, 1) == Some(country),
        walk::num(items, 2) == Some(breadcrumb),
        config <= 2,
    ensures
        after.shared@.window == before.shared@.window,
        after.shared.fail_safe.context == before.shared.fail_safe.context,
        after.aftermath == before.aftermath,
        ({
            let octets = vstd::utf8::encode_utf8(country);
            let possible = before.location_capability is IndoorOutdoor || (before.location_capability is Indoor && config == 0) || (
            before.location_capability is Outdoor && config == 1);
            if !(octets.len() == 2 && octets[0] < 0x80 && octets[1] < 0x80) {
                &&& answers_with(a, 0x03, tag, 1)
                &&& after.location.code == before.location.code
                &&& after.regulatory_config == before.regulatory_config
                &&& after.shared.fail_safe == before.shared.fail_safe
            } else {
                &&& after.location.code == (octets[0], octets[1])
                &&& if possible {
                    &&& answers_with(a, 0x03, tag, 0)
                    &&& after.regulatory_config == (if config == 0 {
                        RegulatoryLocation::Indoor
                    } else if config == 1 {
                        RegulatoryLocation::Outdoor
                    } else {
                        RegulatoryLocation::IndoorOutdoor
                    })
                    &&& after.shared.fail_safe.breadcrumb == breadcrumb
                } else {
                    &&& answers_with(a, 0x03, tag, 1)
                    &&& after.regulatory_config == before.regulatory_config
                    &&& after.shared.fail_safe == before.shared.fail_safe
                }
            }
        }),
{
    assert(regulatory_slots() =~= seq![Slot(0, Want::Unsigned(2)), Slot(1, Want::Text), Slot(2, Want::Unsigned(u64::MAX))]);
}

/// `CommissioningComplete` ends the fail-safe without anything to undo, resets the breadcrumb, closes the window and has the
/// sessions over the passcode closed, exactly where it comes from the fabric that a live fail-safe is armed for; and else says
/// what is wrong and leaves a live fail-safe and the window as they are.
pub proof fn law_commissioning_is_completed_by_its_fabric(
    before: GeneralCommissioning,
    after: GeneralCommissioning,
    resolved: ResolvedCommand,
    data: Option<Seq<u8>>,
    ctx: InteractionContext,
    tag: Tag,
    a: InvokeAnswer,
)
    requires
        GeneralCommissioning::invokes(&before, &after, resolved, data, ctx, tag, a),
        resolved.command == 0x04,
    ensures
        after.regulatory_config == before.regulatory_config,
        after.location.code == before.location.code,
        ({
            let (f, g) = (before.shared.fail_safe, after.shared.fail_safe);
            let live = f.context is Some && ctx.now.micros < f.context->Some_0.deadline.micros;
            &&& g.info == f.info
            &&& if live && ctx.fabric_index is Some && f.context->Some_0.fabric_index == ctx.fabric_index {
                &&& answers_with(a, 0x05, tag, 0)
                &&& g.context is None && g.breadcrumb == 0
                &&& after.shared@.window is None
                &&& after.aftermath == Some(Aftermath::Commissioned)
            } else {
                &&& after.shared@.window == before.shared@.window
                &&& live ==> g == f && after.aftermath == before.aftermath
                &&& !live ==> g.context is None && (f.context is Some ==> after.aftermath is Some
                    && after.aftermath->Some_0 is Rollback)
                &&& answers_with(a, 0x05, tag, if ctx.fabric_index is Some && !live { 3 } else { 2 })
            }
        }),
{
}

/// What a read shows: the breadcrumb that was noted, for how long the fail-safe can be armed, the use of radios and the one that
/// is possible, and, with network recovery, what the node is recognised by and why it lost its network. The breadcrumb that is
/// written is the one that is read.
pub proof fn law_commissioning_is_read_as_it_is(
    before: GeneralCommissioning,
    c: GeneralCommissioning,
    resolved: Resolved,
    b: Seq<u8>,
    op: WriteOp,
    ctx: InteractionContext,
    r: Result<(), Status>,
    tag: Tag,
    a: ReadAnswer,
)
    requires
        GeneralCommissioning::writes(&before, &c, resolved, b, op, ctx, r),
        c.answers(resolved, ctx, tag, a),
    ensures
        r is Err ==> c == before,
        (r is Ok) == (resolved.attribute == 0x0000 && (tlv::element_at(b, 0) matches Some((e, _)) && e.value is Unsigned)),
        r is Ok ==> {
            &&& tlv::element_at(b, 0)->Some_0.0.value == Value::Unsigned(c.shared.fail_safe.breadcrumb)
            &&& c.shared.fail_safe == (FailSafe { breadcrumb: c.shared.fail_safe.breadcrumb, ..before.shared.fail_safe })
            &&& c.shared@.window == before.shared@.window
            &&& c.regulatory_config == before.regulatory_config
        },
        ({
            let number = |v: int| a is Ok && tlv::shows_number(a->Ok_0, 0, tag, v as u64);
            let place = |l: RegulatoryLocation|
                match l {
                    RegulatoryLocation::Indoor => 0int,
                    RegulatoryLocation::Outdoor => 1,
                    RegulatoryLocation::IndoorOutdoor => 2,
                };
            &&& resolved.attribute == 0x0000 ==> number(c.shared.fail_safe.breadcrumb as int)
            &&& resolved.attribute == 0x0001 ==> a is Ok && (a->Ok_0.len() <= usize::MAX ==> tlv::shows_record(
                a->Ok_0,
                0,
                tag,
                seq![
                    (0, Some(c.shared.fail_safe.info.expiry_length_seconds as u64)),
                    (1, Some(c.shared.fail_safe.info.max_cumulative_seconds as u64)),
                ],
            ))
            &&& resolved.attribute == 0x0002 ==> number(place(c.regulatory_config))
            &&& resolved.attribute == 0x0003 ==> number(place(c.location_capability))
            &&& resolved.attribute == 0x0004 ==> a == Ok::<Seq<u8>, Status>(tlv::bool_bytes(tag, c.supports_concurrent_connection))
            &&& resolved.attribute == 0x000A ==> if c.recovery is Some { number(c.recovery->Some_0.identifier as int) } else { a is Err }
        }),
{
    assert forall|v: u64| tlv::shows_number(#[trigger] tlv::unsigned_bytes(tag, v), 0, tag, v) by {
        tlv::lemma_shows_number(tag, v);
    }
    let (x, y) = (c.shared.fail_safe.info.expiry_length_seconds as u64, c.shared.fail_safe.info.max_cumulative_seconds as u64);
    let f = seq![(0u8, Some(x)), (1u8, Some(y))];
    tlv::lemma_fields_of_one(0, x);
    tlv::lemma_fields_push(seq![(0u8, Some(x))], (1u8, Some(y)));
    assert(seq![(0u8, Some(x))].push((1u8, Some(y))) =~= f);
    if resolved.attribute == 0x0001 && a->Ok_0.len() <= usize::MAX {
        tlv::lemma_stands_whole(a->Ok_0);
        tlv::lemma_shows_record(a->Ok_0, 0, tag, f);
    }
}

/// Who may do what: every command needs Administer and is answered, and completing is for the accessing fabric; of the attributes
/// only the breadcrumb can be written, with Administer.
pub proof fn law_commissioning_is_for_administrators(recovery: bool, c: CommandDescriptor, d: AttributeDescriptor)
    ensures
        description(recovery).accepted_commands.contains(c) ==> {
            &&& c.access.invoke == Some(Privilege::Administer) && c.access.read is None && c.access.write is None
            &&& c.id == 0x00 || c.id == 0x02 || c.id == 0x04
            &&& c.response == Some((c.id + 1) as u32)
            &&& c.access.qualities.fabric_scoped == (c.id == 0x04)
            &&& !c.access.qualities.timed
        },
        description(recovery).accepted_commands.len() == 3,
        description(recovery).attributes.contains(d) ==> {
            &&& d.access.write == (if d.id == 0x0000 { Some(Privilege::Administer) } else { None })
            &&& d.access.read == (if d.id == 0x000A || d.id == 0x000B { Some(Privilege::Administer) } else { Some(Privilege::View) })
            &&& d.id <= 0x0004 || (recovery && (d.id == 0x000A || d.id == 0x000B))
        },
        description(recovery).attributes.len() == (if recovery { 7int } else { 5 }),
        description(recovery).feature_map == (if recovery { 2u32 } else { 0 }),
        description(recovery).id == 0x0030,
{
}

} // verus!
