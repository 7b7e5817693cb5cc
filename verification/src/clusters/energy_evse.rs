//! Energy EVSE, cluster `0x0099`: a charger for vehicles, when it may pass current, how much, and
//! what its owner wants in the battery by when.
//!
//! Two windows, one for charging and one for discharging, decide what is supplied; the hardware is
//! asked before anything changes, and a week of targets is taken over whole or not at all.

use vstd::prelude::*;

use crate::bounded;
use crate::bounded::List;
use crate::clusters::dispatch::Cluster;
use crate::clusters::energy_evse::equipment::{Call, Equipment};
use crate::conformance;
use crate::conformance::{Conformance, Conforming, Definition, DefinitionModel, Optional, OptionalModel};
use crate::dm;
use crate::dm::{AccessQualities, EventPriority, Privilege};
use crate::error::ErrorCode;
use crate::fields;
use crate::fields::{Field, Fields, FromTlv, Kind, Need};
use crate::im;
use crate::im::{
    AttributeId, ClusterHandler, ClusterId, CommandId, EventId, InteractionContext, InvokeAnswer, Lifecycle, ReadAnswer, Reply,
    Resolved, ResolvedCommand, Status, StatusIb, WriteOp,
};
use crate::tlv;
use crate::tlv::{ContainerKind, Element, Items, Tag, Value};

pub mod equipment;

verus! {

/// The cluster.
pub const ID: ClusterId = 0x0099;

/// Its revision.
pub const REVISION: u16 = 3;

/// `State`.
pub const STATE: AttributeId = 0x0000;

/// `SupplyState`.
pub const SUPPLY_STATE: AttributeId = 0x0001;

/// `FaultState`.
pub const FAULT_STATE: AttributeId = 0x0002;

/// `ChargingEnabledUntil`.
pub const CHARGING_ENABLED_UNTIL: AttributeId = 0x0003;

/// `DischargingEnabledUntil`.
pub const DISCHARGING_ENABLED_UNTIL: AttributeId = 0x0004;

/// `CircuitCapacity`.
pub const CIRCUIT_CAPACITY: AttributeId = 0x0005;

/// `MinimumChargeCurrent`.
pub const MINIMUM_CHARGE_CURRENT: AttributeId = 0x0006;

/// `MaximumChargeCurrent`.
pub const MAXIMUM_CHARGE_CURRENT: AttributeId = 0x0007;

/// `MaximumDischargeCurrent`.
pub const MAXIMUM_DISCHARGE_CURRENT: AttributeId = 0x0008;

/// `UserMaximumChargeCurrent`.
pub const USER_MAXIMUM_CHARGE_CURRENT: AttributeId = 0x0009;

/// `RandomizationDelayWindow`.
pub const RANDOMIZATION_DELAY_WINDOW: AttributeId = 0x000A;

/// `NextChargeStartTime`.
pub const NEXT_CHARGE_START_TIME: AttributeId = 0x0023;

/// `NextChargeTargetTime`.
pub const NEXT_CHARGE_TARGET_TIME: AttributeId = 0x0024;

/// `NextChargeRequiredEnergy`.
pub const NEXT_CHARGE_REQUIRED_ENERGY: AttributeId = 0x0025;

/// `NextChargeTargetSoC`.
pub const NEXT_CHARGE_TARGET_SO_C: AttributeId = 0x0026;

/// `ApproximateEVEfficiency`.
pub const APPROXIMATE_EV_EFFICIENCY: AttributeId = 0x0027;

/// `StateOfCharge`.
pub const STATE_OF_CHARGE: AttributeId = 0x0030;

/// `BatteryCapacity`.
pub const BATTERY_CAPACITY: AttributeId = 0x0031;

/// `VehicleID`.
pub const VEHICLE_ID: AttributeId = 0x0032;

/// `SessionID`.
pub const SESSION_ID: AttributeId = 0x0040;

/// `SessionDuration`.
pub const SESSION_DURATION: AttributeId = 0x0041;

/// `SessionEnergyCharged`.
pub const SESSION_ENERGY_CHARGED: AttributeId = 0x0042;

/// `SessionEnergyDischarged`.
pub const SESSION_ENERGY_DISCHARGED: AttributeId = 0x0043;

/// `GetTargetsResponse`.
pub const GET_TARGETS_RESPONSE: CommandId = 0x00;

/// `Disable`.
pub const DISABLE: CommandId = 0x01;

/// `EnableCharging`.
pub const ENABLE_CHARGING: CommandId = 0x02;

/// `EnableDischarging`.
pub const ENABLE_DISCHARGING: CommandId = 0x03;

/// `StartDiagnostics`.
pub const START_DIAGNOSTICS: CommandId = 0x04;

/// `SetTargets`.
pub const SET_TARGETS: CommandId = 0x05;

/// `GetTargets`.
pub const GET_TARGETS: CommandId = 0x06;

/// `ClearTargets`.
pub const CLEAR_TARGETS: CommandId = 0x07;

/// `PREF`: charging preferences.
pub const CHARGING_PREFERENCES: u32 = 0x01;

/// `SOC`: the state of charge is told.
pub const SO_C_REPORTING: u32 = 0x02;

/// `PNC`: the vehicle identifies itself.
pub const PLUG_AND_CHARGE: u32 = 0x04;

/// `RFID`: there is a card reader.
pub const RFID: u32 = 0x08;

/// `EVConnected`.
pub const EV_CONNECTED: EventId = 0x00;

/// `EVNotDetected`.
pub const EV_NOT_DETECTED: EventId = 0x01;

/// `EnergyTransferStarted`.
pub const ENERGY_TRANSFER_STARTED: EventId = 0x02;

/// `EnergyTransferStopped`.
pub const ENERGY_TRANSFER_STOPPED: EventId = 0x03;

/// `Fault`.
pub const FAULT: EventId = 0x04;

/// `RFID`.
pub const RFID_READ: EventId = 0x05;

/// `V2X`: the vehicle can give current back.
pub const V2_X: u32 = 0x10;

/// The most schedules that `SetTargets` may carry.
pub const SCHEDULES_MAX: usize = 7;

/// The last minute of a day.
pub const MINUTES_MAX: u16 = 1439;

/// What the pilot signal says.
#[derive(Debug, Clone, Copy, PartialEq, Eq, Structural)]
pub enum StateEnum {
    /// No vehicle.
    NotPluggedIn,
    /// A vehicle that wants nothing.
    PluggedInNoDemand,
    /// A vehicle that wants current.
    PluggedInDemand,
    /// A vehicle that takes current.
    PluggedInCharging,
    /// A vehicle that gives current.
    PluggedInDischarging,
    /// The session is ending.
    SessionEnding,
    /// A fault.
    Fault,
}

/// The number that stands for a state.
pub open spec fn state_value(s: StateEnum) -> u8 {
    match s {
        StateEnum::NotPluggedIn => 0,
        StateEnum::PluggedInNoDemand => 1,
        StateEnum::PluggedInDemand => 2,
        StateEnum::PluggedInCharging => 3,
        StateEnum::PluggedInDischarging => 4,
        StateEnum::SessionEnding => 5,
        StateEnum::Fault => 6,
    }
}

impl StateEnum {
    /// The number that stands for it.
    pub fn value(self) -> (v: u8)
        ensures
            v == state_value(self),
    {
        match self {
            StateEnum::NotPluggedIn => 0,
            StateEnum::PluggedInNoDemand => 1,
            StateEnum::PluggedInDemand => 2,
            StateEnum::PluggedInCharging => 3,
            StateEnum::PluggedInDischarging => 4,
            StateEnum::SessionEnding => 5,
            StateEnum::Fault => 6,
        }
    }
}

/// What is supplied.
#[derive(Debug, Clone, Copy, PartialEq, Eq, Structural)]
pub enum SupplyStateEnum {
    /// Nothing.
    Disabled,
    /// Current to the vehicle.
    ChargingEnabled,
    /// Current from the vehicle.
    DischargingEnabled,
    /// Nothing, for a fault.
    DisabledError,
    /// Nothing, for diagnostics.
    DisabledDiagnostics,
    /// Current either way.
    Enabled,
}

/// The number that stands for a supply state.
pub open spec fn supply_value(s: SupplyStateEnum) -> u8 {
    match s {
        SupplyStateEnum::Disabled => 0,
        SupplyStateEnum::ChargingEnabled => 1,
        SupplyStateEnum::DischargingEnabled => 2,
        SupplyStateEnum::DisabledError => 3,
        SupplyStateEnum::DisabledDiagnostics => 4,
        SupplyStateEnum::Enabled => 5,
    }
}

impl SupplyStateEnum {
    /// The number that stands for it.
    pub fn value(self) -> (v: u8)
        ensures
            v == supply_value(self),
    {
        match self {
            SupplyStateEnum::Disabled => 0,
            SupplyStateEnum::ChargingEnabled => 1,
            SupplyStateEnum::DischargingEnabled => 2,
            SupplyStateEnum::DisabledError => 3,
            SupplyStateEnum::DisabledDiagnostics => 4,
            SupplyStateEnum::Enabled => 5,
        }
    }
}

/// A fault of the equipment, or none.
#[derive(Debug, Clone, Copy, PartialEq, Eq, Structural)]
pub enum FaultStateEnum {
    /// No fault.
    NoError,
    /// The meter.
    MeterFailure,
    /// Too much voltage.
    OverVoltage,
    /// Too little voltage.
    UnderVoltage,
    /// Too much current.
    OverCurrent,
    /// A contact under load.
    ContactWetFailure,
    /// A contact without load.
    ContactDryFailure,
    /// The ground.
    GroundFault,
    /// The power is gone.
    PowerLoss,
    /// The power is bad.
    PowerQuality,
    /// The pilot is shorted.
    PilotShortCircuit,
    /// Somebody hit the button.
    EmergencyStop,
    /// The vehicle was pulled out.
    EVDisconnected,
    /// The wrong supply.
    WrongPowerSupply,
    /// The wires are swapped.
    LiveNeutralSwap,
    /// Too hot.
    OverTemperature,
    /// Anything else.
    Other,
}

/// The number that stands for a fault.
pub open spec fn fault_value(f: FaultStateEnum) -> u8 {
    match f {
        FaultStateEnum::NoError => 0,
        FaultStateEnum::MeterFailure => 1,
        FaultStateEnum::OverVoltage => 2,
        FaultStateEnum::UnderVoltage => 3,
        FaultStateEnum::OverCurrent => 4,
        FaultStateEnum::ContactWetFailure => 5,
        FaultStateEnum::ContactDryFailure => 6,
        FaultStateEnum::GroundFault => 7,
        FaultStateEnum::PowerLoss => 8,
        FaultStateEnum::PowerQuality => 9,
        FaultStateEnum::PilotShortCircuit => 10,
        FaultStateEnum::EmergencyStop => 11,
        FaultStateEnum::EVDisconnected => 12,
        FaultStateEnum::WrongPowerSupply => 13,
        FaultStateEnum::LiveNeutralSwap => 14,
        FaultStateEnum::OverTemperature => 15,
        FaultStateEnum::Other => 255,
    }
}

impl FaultStateEnum {
    /// The number that stands for it.
    pub fn value(self) -> (v: u8)
        ensures
            v == fault_value(self),
    {
        match self {
            FaultStateEnum::NoError => 0,
            FaultStateEnum::MeterFailure => 1,
            FaultStateEnum::OverVoltage => 2,
            FaultStateEnum::UnderVoltage => 3,
            FaultStateEnum::OverCurrent => 4,
            FaultStateEnum::ContactWetFailure => 5,
            FaultStateEnum::ContactDryFailure => 6,
            FaultStateEnum::GroundFault => 7,
            FaultStateEnum::PowerLoss => 8,
            FaultStateEnum::PowerQuality => 9,
            FaultStateEnum::PilotShortCircuit => 10,
            FaultStateEnum::EmergencyStop => 11,
            FaultStateEnum::EVDisconnected => 12,
            FaultStateEnum::WrongPowerSupply => 13,
            FaultStateEnum::LiveNeutralSwap => 14,
            FaultStateEnum::OverTemperature => 15,
            FaultStateEnum::Other => 255,
        }
    }
}

/// Who stopped the current.
#[derive(Debug, Clone, Copy, PartialEq, Eq, Structural)]
pub enum EnergyTransferStoppedReasonEnum {
    /// The vehicle.
    EVStopped,
    /// The equipment.
    EVSEStopped,
    /// Something else.
    Other,
}

/// What the owner wants in the battery, and by when.
#[derive(Debug, Clone, Copy, PartialEq, Eq, Structural)]
pub struct ChargingTargetStruct {
    /// By when, in minutes past midnight.
    pub target_time_minutes_past_midnight: u16,
    /// How full, in percent.
    pub target_so_c: Option<u8>,
    /// How much to add, in milliwatt hours.
    pub added_energy: Option<i64>,
}

/// The fields of a charging target.
pub open spec fn target_schema() -> Seq<Field> {
    seq![
        Field(0, Kind::U16, Need::Required),
        Field(1, Kind::U8, Need::Optional),
        Field(2, Kind::I64, Need::Optional),
    ]
}

impl FromTlv for ChargingTargetStruct {
    open spec fn of(b: Seq<u8>, e: Element) -> Result<Self, Status> {
        match e.value {
            Value::Container(ContainerKind::Structure, start) => match fields::decode_at(
                b,
                start as int,
                target_schema(),
            ) {
                Ok(items) => match fields::num16(items, 0) {
                    Some(minutes) => {
                        let soc = fields::num8(items, 1);
                        let energy = fields::int64(items, 2);
                        if minutes > MINUTES_MAX || (soc matches Some(soc) && soc > 100) || (energy matches Some(e)
                            && e < 0) {
                            Err(Status::ConstraintError)
                        } else {
                            Ok(
                                ChargingTargetStruct {
                                    target_time_minutes_past_midnight: minutes,
                                    target_so_c: soc,
                                    added_energy: energy,
                                },
                            )
                        }
                    },
                    None => Err(Status::ConstraintError),
                },
                Err(_) => Err(Status::ConstraintError),
            },
            _ => Err(Status::ConstraintError),
        }
    }

    fn from_tlv(data: &[u8], e: &Element) -> (r: Result<Self, Status>) {
        match e.value {
            Value::Container(ContainerKind::Structure, start) => {
                let schema: Vec<Field> = vec![
                    Field(0, Kind::U16, Need::Required),
                    Field(1, Kind::U8, Need::Optional),
                    Field(2, Kind::I64, Need::Optional),
                ];
                proof {
                    assert(schema@ =~= target_schema());
                }
                match fields::read_at(data, start, &schema) {
                    Ok(f) => match f.num16(0) {
                        Some(minutes) => {
                            let soc: Option<u8> = f.num8(1);
                            let energy: Option<i64> = f.int64(2);
                            let too_full: bool = match soc {
                                Some(soc) => soc > 100,
                                None => false,
                            };
                            let negative: bool = match energy {
                                Some(e) => e < 0,
                                None => false,
                            };
                            if minutes > MINUTES_MAX || too_full || negative {
                                Err(Status::ConstraintError)
                            } else {
                                Ok(
                                    ChargingTargetStruct {
                                        target_time_minutes_past_midnight: minutes,
                                        target_so_c: soc,
                                        added_energy: energy,
                                    },
                                )
                            }
                        },
                        None => Err(Status::ConstraintError),
                    },
                    Err(_) => Err(Status::ConstraintError),
                }
            },
            _ => Err(Status::ConstraintError),
        }
    }
}

/// A signed integer, or null.
pub open spec fn nullable_signed_bytes(tag: Tag, v: Option<i64>) -> Seq<u8> {
    match v {
        Some(v) => tlv::signed_bytes(tag, v),
        None => tlv::null_bytes(tag),
    }
}

/// How a charging target is encoded.
pub open spec fn target_bytes() -> spec_fn(ChargingTargetStruct) -> Seq<u8> {
    |t: ChargingTargetStruct|
        tlv::structure_bytes(
            Tag::Anonymous,
            tlv::unsigned_bytes(Tag::Context(0), t.target_time_minutes_past_midnight as u64) + (
            match t.target_so_c {
                Some(soc) => tlv::unsigned_bytes(Tag::Context(1), soc as u64),
                None => Seq::empty(),
            }) + (match t.added_energy {
                Some(e) => tlv::signed_bytes(Tag::Context(2), e),
                None => Seq::empty(),
            }),
        )
}

fn encode_target(out: &mut Vec<u8>, t: &ChargingTargetStruct)
    ensures
        final(out)@ == old(out)@ + target_bytes()(*t),
{
    let mut body: Vec<u8> = Vec::new();
    tlv::put_unsigned(&mut body, Tag::Context(0), t.target_time_minutes_past_midnight as u64);
    if let Some(soc) = t.target_so_c {
        tlv::put_unsigned(&mut body, Tag::Context(1), soc as u64);
    }
    if let Some(e) = t.added_energy {
        tlv::put_signed(&mut body, Tag::Context(2), e);
    }
    proof {
        assert(body@ =~= tlv::unsigned_bytes(Tag::Context(0), t.target_time_minutes_past_midnight as u64) + (
        match t.target_so_c {
            Some(soc) => tlv::unsigned_bytes(Tag::Context(1), soc as u64),
            None => Seq::empty(),
        }) + (match t.added_energy {
            Some(e) => tlv::signed_bytes(Tag::Context(2), e),
            None => Seq::empty(),
        }));
    }
    tlv::put_structure(out, Tag::Anonymous, &body);
}

/// When the equipment will next charge, and to what.
#[derive(Debug, Clone, Copy, PartialEq, Eq, Structural)]
pub struct NextCharge {
    /// When it starts, in seconds of the epoch.
    pub start_time: Option<u32>,
    /// When it is to be done.
    pub target_time: Option<u32>,
    /// How much it takes, in milliwatt hours.
    pub required_energy: Option<i64>,
    /// How full, in percent.
    pub target_soc: Option<u8>,
}

impl Default for NextCharge {
    /// Nothing is planned.
    fn default() -> (d: Self)
        ensures
            d == (NextCharge {
                start_time: None,
                target_time: None,
                required_energy: None,
                target_soc: None,
            }),
    {
        NextCharge {
            start_time: None,
            target_time: None,
            required_energy: None,
            target_soc: None,
        }
    }
}

/// What the hardware knows and decides.
pub trait EvseHooks {
    /// What the pilot signal says.
    fn state(&self) -> Option<StateEnum>;

    /// A fault, or none.
    fn fault(&self) -> (r: FaultStateEnum)
        default_ensures
            r == FaultStateEnum::NoError,
    {
        FaultStateEnum::NoError
    }

    /// The time, in seconds of the epoch, where the clock was set.
    fn utc(&self) -> (r: Option<u32>)
        default_ensures
            r is None,
    {
        None
    }

    /// What the circuit can carry, in milliamperes.
    fn circuit_capacity(&self) -> i64;

    /// What the user allows, in milliamperes; zero where the user says nothing.
    fn user_maximum_charge_current(&self) -> (r: i64)
        default_ensures
            r == 0,
    {
        0
    }

    /// How long to wait at most before a start, in seconds.
    fn randomization_delay_window(&self) -> (r: u32)
        default_ensures
            r == 0,
    {
        0
    }

    /// Which session it is.
    fn session_id(&self) -> Option<u32>;

    /// How long the session has been running, in seconds.
    fn session_duration(&self) -> Option<u32>;

    /// What went into the vehicle, in milliwatt hours.
    fn session_energy_charged(&self) -> Option<i64>;

    /// What came out of the vehicle.
    fn session_energy_discharged(&self) -> (r: Option<i64>)
        default_ensures
            r is None,
    {
        None
    }

    /// How full the battery is, in percent.
    fn state_of_charge(&self) -> (r: Option<u8>)
        default_ensures
            r is None,
    {
        None
    }

    /// What the battery holds, in milliwatt hours.
    fn battery_capacity(&self) -> (r: Option<i64>)
        default_ensures
            r is None,
    {
        None
    }

    /// Which vehicle it is.
    fn vehicle_id(&self) -> (r: Option<&str>)
        default_ensures
            r is None,
    {
        None
    }

    /// When it will next charge, and to what.
    fn next_charge(&self) -> (r: NextCharge)
        default_ensures
            r == (NextCharge { start_time: None, target_time: None, required_energy: None, target_soc: None }),
    {
        NextCharge { start_time: None, target_time: None, required_energy: None, target_soc: None }
    }

    /// How far the vehicle goes, in tenths of a mile per kilowatt hour.
    fn approximate_ev_efficiency(&self) -> (r: Option<u16>)
        default_ensures
            r is None,
    {
        None
    }

    /// Stops any current.
    fn disable(&self) -> (r: bool)
        default_ensures
            r,
    {
        true
    }

    /// Passes current between two bounds, on equipment that just said that it has no fault.
    fn enable_charging(&self, minimum_ma: i64, maximum_ma: i64) -> (r: bool)
        requires
            call_ensures(Self::fault, (self,), FaultStateEnum::NoError),
            0 <= minimum_ma <= maximum_ma,
    ;

    /// Takes current back up to a bound, on equipment that just said that it has no fault.
    fn enable_discharging(&self, maximum_ma: i64) -> (r: bool)
        requires
            call_ensures(Self::fault, (self,), FaultStateEnum::NoError),
            0 <= maximum_ma,
        default_ensures
            !r,
    {
        false
    }

    /// Runs diagnostics, on equipment that just said that it has no fault.
    fn start_diagnostics(&self) -> (r: bool)
        requires
            call_ensures(Self::fault, (self,), FaultStateEnum::NoError),
        default_ensures
            !r,
    {
        false
    }

    /// How often it was told that the targets changed; a product that is itself verified says what this
    /// is.
    closed spec fn told(&self) -> nat {
        arbitrary()
    }

    /// The targets changed.
    fn targets_changed(&mut self)
        ensures
            final(self).told() == old(self).told() + 1,
    ;
}

/// What happened, for the device to record.
#[derive(Debug, Clone, Copy, PartialEq, Eq, Structural)]
pub enum Event {
    /// A vehicle was plugged in.
    EvConnected(u32),
    /// The vehicle is gone.
    EvNotDetected,
    /// Current started to flow.
    EnergyTransferStarted,
    /// Current stopped.
    EnergyTransferStopped(EnergyTransferStoppedReasonEnum),
    /// The fault state changed.
    Fault(FaultStateEnum),
}

/// What the equipment is told to do.
#[derive(Debug, Clone, Copy, PartialEq, Eq, Structural)]
pub struct Power {
    /// What is supplied.
    pub supply: SupplyStateEnum,
    /// Until when charging is allowed; always where there is no time, never where it is zero.
    pub charging_until: Option<u32>,
    /// Until when discharging is allowed.
    pub discharging_until: Option<u32>,
    /// The least current to the vehicle, in milliamperes.
    pub minimum_charge_current: i64,
    /// The most current to the vehicle.
    pub maximum_charge_current: i64,
    /// The most current from the vehicle.
    pub maximum_discharge_current: i64,
}

/// Whether a window is open: always without an end, never with a zero end, and with another end
/// as long as no clock says that it is past.
pub open spec fn open_at(until: Option<u32>, utc: Option<u32>) -> bool {
    match until {
        None => true,
        Some(end) => end != 0 && (utc matches Some(now) ==> end > now),
    }
}

/// What two windows supply.
pub open spec fn supplied(charging: bool, discharging: bool) -> SupplyStateEnum {
    if charging && discharging {
        SupplyStateEnum::Enabled
    } else if charging {
        SupplyStateEnum::ChargingEnabled
    } else if discharging {
        SupplyStateEnum::DischargingEnabled
    } else {
        SupplyStateEnum::Disabled
    }
}

/// The supply worked out again from the windows, unless diagnostics or a fault hold it.
pub open spec fn resupplied(p: Power, features: u32, utc: Option<u32>) -> Power {
    if p.supply is DisabledDiagnostics || p.supply is DisabledError {
        p
    } else {
        Power {
            supply: supplied(
                open_at(p.charging_until, utc),
                open_at(p.discharging_until, utc) && features & V2_X != 0,
            ),
            ..p
        }
    }
}

/// The two windows as they were before a restart.
pub open spec fn restored(p: Power, charging_until: Option<u32>, discharging_until: Option<u32>) -> Power {
    Power { charging_until, discharging_until, ..p }
}

/// The supply that is reported: a fault shows through.
pub open spec fn reported(p: Power, fault: FaultStateEnum) -> SupplyStateEnum {
    if fault != FaultStateEnum::NoError {
        SupplyStateEnum::DisabledError
    } else {
        p.supply
    }
}

/// The charge current that is allowed: what was commanded, and less where the user says so.
pub open spec fn allowed_current(p: Power, user: i64) -> i64 {
    if user > 0 && user < p.maximum_charge_current {
        user
    } else {
        p.maximum_charge_current
    }
}

/// Whether current is flowing.
pub open spec fn flowing(state: Option<StateEnum>) -> bool {
    state == Some(StateEnum::PluggedInCharging) || state == Some(StateEnum::PluggedInDischarging)
}

/// The bit of a day of the week, Sunday first.
pub open spec fn day_bit(d: int) -> u8 {
    if d == 0 {
        0x01
    } else if d == 1 {
        0x02
    } else if d == 2 {
        0x04
    } else if d == 3 {
        0x08
    } else if d == 4 {
        0x10
    } else if d == 5 {
        0x20
    } else {
        0x40
    }
}

fn bit_of(d: usize) -> (bit: u8)
    ensures
        bit == day_bit(d as int),
{
    if d == 0 {
        0x01
    } else if d == 1 {
        0x02
    } else if d == 2 {
        0x04
    } else if d == 3 {
        0x08
    } else if d == 4 {
        0x10
    } else if d == 5 {
        0x20
    } else {
        0x40
    }
}

/// Targets for some days.
pub struct Planned {
    /// Which days.
    pub days: u8,
    /// The targets.
    pub targets: Vec<ChargingTargetStruct>,
}

/// Targets for some days, as a value.
pub struct Schedule {
    /// Which days.
    pub days: u8,
    /// The targets.
    pub targets: Seq<ChargingTargetStruct>,
}

impl View for Planned {
    type V = Schedule;

    open spec fn view(&self) -> Schedule {
        Schedule { days: self.days, targets: self.targets@ }
    }
}

/// The days that schedules name.
pub open spec fn days_of(plan: Seq<Schedule>) -> u8
    decreases plan.len(),
{
    if plan.len() == 0 {
        0
    } else {
        days_of(plan.drop_last()) | plan.last().days
    }
}

/// The fields of a schedule.
pub open spec fn schedule_schema() -> Seq<Field> {
    seq![Field(0, Kind::U8, Need::Required), Field(1, Kind::Array, Need::Required)]
}

/// What one more schedule comes to, after those that came before.
pub open spec fn schedule_at(b: Seq<u8>, e: Element, before: Seq<Schedule>, per_day: nat) -> Result<Schedule, Status> {
    match e.value {
        Value::Container(ContainerKind::Structure, start) => match fields::decode_at(b, start as int, schedule_schema()) {
            Ok(items) => match (fields::num8(items, 0), fields::container(items, 1)) {
                (Some(days), Some(list)) => if before.len() >= SCHEDULES_MAX || days & days_of(before) != 0 {
                    Err(Status::ConstraintError)
                } else {
                    match fields::list_of::<ChargingTargetStruct>(
                        b,
                        list as int,
                        per_day as int,
                        Status::ResourceExhausted,
                    ) {
                        Err(status) => Err(status),
                        Ok(targets) => Ok(Schedule { days, targets }),
                    }
                },
                _ => Err(Status::ConstraintError),
            },
            Err(_) => Err(Status::ConstraintError),
        },
        _ => Err(Status::ConstraintError),
    }
}

/// What the first `n` schedules of a list come to.
pub open spec fn planned(b: Seq<u8>, items: Seq<Element>, n: int, per_day: nat) -> Result<Seq<Schedule>, Status>
    decreases n,
{
    if n <= 0 {
        Ok(Seq::empty())
    } else {
        match planned(b, items, n - 1, per_day) {
            Err(status) => Err(status),
            Ok(before) => match schedule_at(b, items[n - 1], before, per_day) {
                Err(status) => Err(status),
                Ok(s) => Ok(before.push(s)),
            },
        }
    }
}

/// What went wrong early stays wrong.
proof fn lemma_planned_err(b: Seq<u8>, items: Seq<Element>, i: int, n: int, per_day: nat)
    requires
        i <= n,
        planned(b, items, i, per_day) is Err,
    ensures
        planned(b, items, n, per_day) == planned(b, items, i, per_day),
    decreases n - i,
{
    if i < n {
        lemma_planned_err(b, items, i, n - 1, per_day);
    }
}

/// A week of targets after the first `n` schedules are taken over: a day that one names gets its
/// targets, and every other day keeps its own.
pub open spec fn taken_over(week: Seq<Seq<ChargingTargetStruct>>, plan: Seq<Schedule>, n: int) -> Seq<
    Seq<ChargingTargetStruct>,
>
    decreases n,
{
    if n <= 0 {
        week
    } else {
        Seq::new(
            7,
            |d: int|
                if plan[n - 1].days & day_bit(d) != 0 {
                    plan[n - 1].targets
                } else {
                    taken_over(week, plan, n - 1)[d]
                },
        )
    }
}

/// The targets of each day of the week.
pub struct Week<const T: usize> {
    sunday: List<ChargingTargetStruct, T>,
    monday: List<ChargingTargetStruct, T>,
    tuesday: List<ChargingTargetStruct, T>,
    wednesday: List<ChargingTargetStruct, T>,
    thursday: List<ChargingTargetStruct, T>,
    friday: List<ChargingTargetStruct, T>,
    saturday: List<ChargingTargetStruct, T>,
}

impl<const T: usize> View for Week<T> {
    type V = Seq<Seq<ChargingTargetStruct>>;

    closed spec fn view(&self) -> Seq<Seq<ChargingTargetStruct>> {
        seq![
            self.sunday@,
            self.monday@,
            self.tuesday@,
            self.wednesday@,
            self.thursday@,
            self.friday@,
            self.saturday@,
        ]
    }
}

/// A week without targets.
pub open spec fn empty_week() -> Seq<Seq<ChargingTargetStruct>> {
    Seq::new(7, |d: int| Seq::<ChargingTargetStruct>::empty())
}

impl<const T: usize> Week<T> {
    /// A week without targets.
    pub fn new() -> (w: Self)
        ensures
            w@ == empty_week(),
    {
        let w: Week<T> = Week {
            sunday: List::new(),
            monday: List::new(),
            tuesday: List::new(),
            wednesday: List::new(),
            thursday: List::new(),
            friday: List::new(),
            saturday: List::new(),
        };
        proof {
            assert(w@ =~= empty_week());
        }
        w
    }

    /// The targets of a day, Sunday first.
    pub fn day(&self, d: usize) -> (list: &List<ChargingTargetStruct, T>)
        requires
            d < 7,
        ensures
            self@.len() == 7,
            list@ == self@[d as int],
    {
        if d == 0 {
            &self.sunday
        } else if d == 1 {
            &self.monday
        } else if d == 2 {
            &self.tuesday
        } else if d == 3 {
            &self.wednesday
        } else if d == 4 {
            &self.thursday
        } else if d == 5 {
            &self.friday
        } else {
            &self.saturday
        }
    }

    /// Replaces the targets of a day.
    fn put(&mut self, d: usize, list: List<ChargingTargetStruct, T>)
        requires
            d < 7,
        ensures
            final(self)@ == old(self)@.update(d as int, list@),
    {
        if d == 0 {
            self.sunday = list;
        } else if d == 1 {
            self.monday = list;
        } else if d == 2 {
            self.tuesday = list;
        } else if d == 3 {
            self.wednesday = list;
        } else if d == 4 {
            self.thursday = list;
        } else if d == 5 {
            self.friday = list;
        } else {
            self.saturday = list;
        }
        proof {
            assert(self@ =~= old(self)@.update(d as int, list@));
        }
    }

    /// Takes one schedule over.
    fn take_over(&mut self, plan: &Vec<Planned>, n: usize, Ghost(start): Ghost<Seq<Seq<ChargingTargetStruct>>>)
        requires
            n < plan@.len(),
            old(self)@ == taken_over(start, bounded::models(plan@), n as int),
            old(self)@.len() == 7,
            plan@[n as int].targets@.len() <= T,
        ensures
            final(self)@ == taken_over(start, bounded::models(plan@), n + 1),
            final(self)@.len() == 7,
    {
        let ghost before = self@;
        let ghost models = bounded::models(plan@);
        let mut d: usize = 0;
        while d < 7
            invariant
                d <= 7,
                n < plan@.len(),
                models == bounded::models(plan@),
                before.len() == 7,
                plan@[n as int].targets@.len() <= T,
                self@ == Seq::new(
                    7,
                    |k: int| if k < d && models[n as int].days & day_bit(k) != 0 { models[n as int].targets } else { before[k] },
                ),
            decreases 7 - d,
        {
            proof {
                assert(models[n as int] == plan@[n as int]@);
            }
            if plan[n].days & bit_of(d) != 0 {
                let list: List<ChargingTargetStruct, T> = list_from(&plan[n].targets);
                self.put(d, list);
            }
            d = d + 1;
            proof {
                assert(self@ =~= Seq::new(
                    7,
                    |k: int| if k < d && models[n as int].days & day_bit(k) != 0 { models[n as int].targets } else { before[k] },
                ));
            }
        }
        proof {
            assert(self@ =~= taken_over(start, models, n + 1));
        }
    }
}

fn list_from<const T: usize>(v: &Vec<ChargingTargetStruct>) -> (list: List<ChargingTargetStruct, T>)
    requires
        v@.len() <= T,
    ensures
        list@ == v@,
{
    let mut list: List<ChargingTargetStruct, T> = List::new();
    let mut i: usize = 0;
    while i < v.len()
        invariant
            i <= v@.len() <= T,
            list@ == v@.take(i as int),
        decreases v.len() - i,
    {
        let _ = list.push(v[i]);
        i = i + 1;
        proof {
            assert(v@.take(i as int) =~= v@.take(i - 1).push(v@[i - 1]));
        }
    }
    proof {
        assert(v@.take(i as int) =~= v@);
    }
    list
}

/// Reads one more schedule.
fn read_schedule(data: &[u8], e: &Element, seen: u8, count: usize, per_day: usize, Ghost(before): Ghost<Seq<Schedule>>) -> (r: Result<
    Planned,
    Status,
>)
    requires
        tlv::inside(data@, *e),
        seen == days_of(before),
        count == before.len(),
    ensures
        match r {
            Ok(p) => schedule_at(data@, *e, before, per_day as nat) == Ok::<Schedule, Status>(p@) && p.targets@.len()
                <= per_day,
            Err(status) => schedule_at(data@, *e, before, per_day as nat) == Err::<Schedule, Status>(status),
        },
{
    match e.value {
        Value::Container(ContainerKind::Structure, start) => {
            let schema: Vec<Field> = vec![Field(0, Kind::U8, Need::Required), Field(1, Kind::Array, Need::Required)];
            proof {
                assert(schema@ =~= schedule_schema());
            }
            match fields::read_at(data, start, &schema) {
                Ok(f) => match (f.num8(0), f.container(1)) {
                    (Some(days), Some(list)) => {
                        if count >= SCHEDULES_MAX || days & seen != 0 {
                            return Err(Status::ConstraintError);
                        }
                        match fields::read_list::<ChargingTargetStruct>(data, list, per_day, Status::ResourceExhausted) {
                            Err(status) => Err(status),
                            Ok(targets) => {
                                proof {
                                    let s = tlv::scan(data@, list as int);
                                    fields::lemma_gathered_len::<ChargingTargetStruct>(
                                        data@,
                                        s.items,
                                        s.items.len() as int,
                                        per_day as int,
                                        Status::ResourceExhausted,
                                    );
                                }
                                Ok(Planned { days, targets })
                            },
                        }
                    },
                    _ => Err(Status::ConstraintError),
                },
                Err(_) => Err(Status::ConstraintError),
            }
        },
        _ => Err(Status::ConstraintError),
    }
}

/// Schedules, as values.
pub open spec fn schedules(r: Result<Vec<Planned>, Status>) -> Result<Seq<Schedule>, Status> {
    match r {
        Ok(v) => Ok(bounded::models(v@)),
        Err(status) => Err(status),
    }
}

fn read_plan(data: &[u8], items: &Vec<Element>, per_day: usize) -> (r: Result<Vec<Planned>, Status>)
    requires
        forall|i: int| 0 <= i < items@.len() ==> tlv::inside(data@, #[trigger] items@[i]),
    ensures
        schedules(r) == planned(data@, items@, items@.len() as int, per_day as nat),
        r matches Ok(plan) ==> forall|i: int| 0 <= i < plan@.len() ==> (#[trigger] plan@[i]).targets@.len() <= per_day,
{
    let mut plan: Vec<Planned> = Vec::new();
    let mut seen: u8 = 0;
    let mut i: usize = 0;
    proof {
        assert(bounded::models(plan@) =~= Seq::<Schedule>::empty());
    }
    while i < items.len()
        invariant
            i <= items@.len(),
            plan@.len() == i,
            forall|i: int| 0 <= i < items@.len() ==> tlv::inside(data@, #[trigger] items@[i]),
            planned(data@, items@, i as int, per_day as nat) == Ok::<Seq<Schedule>, Status>(bounded::models(plan@)),
            seen == days_of(bounded::models(plan@)),
            forall|i: int| 0 <= i < plan@.len() ==> (#[trigger] plan@[i]).targets@.len() <= per_day,
        decreases items.len() - i,
    {
        let ghost before = bounded::models(plan@);
        match read_schedule(data, &items[i], seen, plan.len(), per_day, Ghost(before)) {
            Err(status) => {
                proof {
                    lemma_planned_err(data@, items@, i + 1, items@.len() as int, per_day as nat);
                }
                return Err(status);
            },
            Ok(p) => {
                seen = seen | p.days;
                let ghost model = p@;
                let ghost old_plan = plan@;
                plan.push(p);
                proof {
                    assert(bounded::models(plan@) =~= before.push(model));
                    assert(before.push(model).drop_last() =~= before);
                    assert(seen == days_of(before) | model.days);
                }
            },
        }
        i = i + 1;
    }
    Ok(plan)
}

/// What the schedules of a day item by item look like: its bit and its targets.
pub open spec fn day_bytes(week: Seq<Seq<ChargingTargetStruct>>, d: int) -> Seq<u8> {
    if week[d].len() == 0 {
        Seq::empty()
    } else {
        tlv::structure_bytes(
            Tag::Anonymous,
            tlv::unsigned_bytes(Tag::Context(0), day_bit(d) as u64) + tlv::array_bytes(
                Tag::Context(1),
                tlv::concat(week[d], target_bytes()),
            ),
        )
    }
}

/// The days with targets among the first `n`.
pub open spec fn days_bytes(week: Seq<Seq<ChargingTargetStruct>>, n: int) -> Seq<u8>
    decreases n,
{
    if n <= 0 {
        Seq::empty()
    } else {
        days_bytes(week, n - 1) + day_bytes(week, n - 1)
    }
}

/// The answer to `GetTargets`.
pub open spec fn targets_response(week: Seq<Seq<ChargingTargetStruct>>, tag: Tag) -> Seq<u8> {
    tlv::structure_bytes(tag, tlv::array_bytes(Tag::Context(0), days_bytes(week, 7)))
}

/// The fields of `EnableCharging`.
pub open spec fn charging_schema() -> Seq<Field> {
    seq![
        Field(0, Kind::U32, Need::Nullable),
        Field(1, Kind::I64, Need::Required),
        Field(2, Kind::I64, Need::Required),
    ]
}

/// The fields of `EnableDischarging`.
pub open spec fn discharging_schema() -> Seq<Field> {
    seq![Field(0, Kind::U32, Need::Nullable), Field(1, Kind::I64, Need::Required)]
}

/// The fields of `SetTargets`.
pub open spec fn targets_schema() -> Seq<Field> {
    seq![Field(0, Kind::Array, Need::Required)]
}

/// Whether the equipment takes no commands: it has a fault, or runs diagnostics.
pub open spec fn refuses(p: Power, fault: FaultStateEnum) -> bool {
    fault != FaultStateEnum::NoError || p.supply is DisabledDiagnostics
}

/// What `EnableCharging` asks for: until when, and the least and the most current.
pub open spec fn charging_request(p: Power, fault: FaultStateEnum, data: Option<Seq<u8>>) -> Result<
    (Option<u32>, i64, i64),
    Status,
> {
    match fields::decode_some(data, charging_schema()) {
        Err(status) => Err(status),
        Ok(items) => match (fields::int64(items, 1), fields::int64(items, 2)) {
            (Some(minimum), Some(maximum)) => if refuses(p, fault) {
                Err(Status::Failure)
            } else if minimum < 0 || maximum < 0 || minimum > maximum {
                Err(Status::ConstraintError)
            } else {
                Ok((fields::num32(items, 0), minimum, maximum))
            },
            _ => Err(Status::InvalidCommand),
        },
    }
}

/// What `EnableDischarging` asks for: until when, and the most current.
pub open spec fn discharging_request(p: Power, fault: FaultStateEnum, data: Option<Seq<u8>>) -> Result<
    (Option<u32>, i64),
    Status,
> {
    match fields::decode_some(data, discharging_schema()) {
        Err(status) => Err(status),
        Ok(items) => match fields::int64(items, 1) {
            Some(maximum) => if refuses(p, fault) {
                Err(Status::Failure)
            } else if maximum < 0 {
                Err(Status::ConstraintError)
            } else {
                Ok((fields::num32(items, 0), maximum))
            },
            None => Err(Status::InvalidCommand),
        },
    }
}

/// The schedules that `SetTargets` brings.
pub open spec fn targets_request(data: Option<Seq<u8>>, per_day: nat) -> Result<Seq<Schedule>, Status> {
    match fields::decode_some(data, targets_schema()) {
        Err(status) => Err(status),
        Ok(items) => match fields::container(items, 0) {
            Some(start) => {
                let list = tlv::scan(data->Some_0, start as int).items;
                planned(data->Some_0, list, list.len() as int, per_day)
            },
            None => Err(Status::InvalidCommand),
        },
    }
}

/// What the hardware says when a command arrives, and how it answers what it is asked.
#[derive(Debug, Clone, Copy, PartialEq, Eq, Structural)]
pub struct Hardware {
    /// What the pilot signal says.
    pub state: Option<StateEnum>,
    /// A fault, or none.
    pub fault: FaultStateEnum,
    /// The time.
    pub utc: Option<u32>,
}

/// What a command comes to: what the equipment is told, the targets, what happened, and the answer.
pub struct Outcome {
    /// What the equipment is told.
    pub power: Power,
    /// The targets.
    pub week: Seq<Seq<ChargingTargetStruct>>,
    /// What happened.
    pub event: Option<Event>,
    /// The answer.
    pub answer: InvokeAnswer,
}

/// A command that changes nothing.
pub open spec fn unchanged(p: Power, week: Seq<Seq<ChargingTargetStruct>>, status: Status) -> Outcome {
    Outcome { power: p, week, event: None, answer: im::refused(status) }
}

/// What a command comes to, for each thing that the hardware may say and each answer it may give.
pub open spec fn commanded(
    p: Power,
    week: Seq<Seq<ChargingTargetStruct>>,
    features: u32,
    per_day: nat,
    command: CommandId,
    data: Option<Seq<u8>>,
    tag: Tag,
    hw: Hardware,
    agreed: bool,
) -> Outcome {
    if command == DISABLE {
        if !agreed {
            unchanged(p, week, Status::Failure)
        } else {
            Outcome {
                power: Power {
                    charging_until: Some(0),
                    discharging_until: Some(0),
                    supply: if p.supply is DisabledDiagnostics { p.supply } else { SupplyStateEnum::Disabled },
                    ..p
                },
                week,
                event: if flowing(hw.state) {
                    Some(Event::EnergyTransferStopped(EnergyTransferStoppedReasonEnum::EVSEStopped))
                } else {
                    None
                },
                answer: im::done(),
            }
        }
    } else if command == ENABLE_CHARGING {
        match charging_request(p, hw.fault, data) {
            Err(status) => unchanged(p, week, status),
            Ok((until, minimum, maximum)) => if !agreed {
                unchanged(p, week, Status::Failure)
            } else {
                Outcome {
                    power: resupplied(
                        Power {
                            minimum_charge_current: minimum,
                            maximum_charge_current: maximum,
                            charging_until: until,
                            ..p
                        },
                        features,
                        hw.utc,
                    ),
                    week,
                    event: None,
                    answer: im::done(),
                }
            },
        }
    } else if command == ENABLE_DISCHARGING {
        match discharging_request(p, hw.fault, data) {
            Err(status) => unchanged(p, week, status),
            Ok((until, maximum)) => if !agreed {
                unchanged(p, week, Status::Failure)
            } else {
                Outcome {
                    power: resupplied(
                        Power { maximum_discharge_current: maximum, discharging_until: until, ..p },
                        features,
                        hw.utc,
                    ),
                    week,
                    event: None,
                    answer: im::done(),
                }
            },
        }
    } else if command == START_DIAGNOSTICS {
        if !(reported(p, hw.fault) is Disabled) || !agreed {
            unchanged(p, week, Status::Failure)
        } else {
            Outcome {
                power: Power { supply: SupplyStateEnum::DisabledDiagnostics, ..p },
                week,
                event: None,
                answer: im::done(),
            }
        }
    } else if command == SET_TARGETS {
        match targets_request(data, per_day) {
            Err(status) => unchanged(p, week, status),
            Ok(plan) => Outcome {
                power: p,
                week: taken_over(week, plan, plan.len() as int),
                event: None,
                answer: im::done(),
            },
        }
    } else if command == GET_TARGETS {
        Outcome {
            power: p,
            week,
            event: None,
            answer: Ok((Some(GET_TARGETS_RESPONSE), targets_response(week, tag))),
        }
    } else if command == CLEAR_TARGETS {
        Outcome { power: p, week: empty_week(), event: None, answer: im::done() }
    } else {
        unchanged(p, week, Status::UnsupportedCommand)
    }
}

/// Whether the hardware is told that its targets changed: once where `SetTargets` is taken over or
/// `ClearTargets` is carried out, and not otherwise.
pub open spec fn tells(command: CommandId, data: Option<Seq<u8>>, per_day: nat) -> bool {
    command == SET_TARGETS && targets_request(data, per_day) is Ok || command == CLEAR_TARGETS
}

/// What the hardware is told in the course of a command: at most one thing, and nothing where the
/// command is refused before.
pub open spec fn call_of(
    p: Power,
    command: CommandId,
    data: Option<Seq<u8>>,
    per_day: nat,
    fault: FaultStateEnum,
    agreed: bool,
) -> Option<Call> {
    if command == DISABLE {
        Some(Call::Disable(agreed))
    } else if command == ENABLE_CHARGING {
        match charging_request(p, fault, data) {
            Ok((_, minimum, maximum)) => Some(Call::EnableCharging(minimum, maximum, agreed)),
            Err(_) => None,
        }
    } else if command == ENABLE_DISCHARGING {
        match discharging_request(p, fault, data) {
            Ok((_, maximum)) => Some(Call::EnableDischarging(maximum, agreed)),
            Err(_) => None,
        }
    } else if command == START_DIAGNOSTICS {
        if reported(p, fault) is Disabled {
            Some(Call::StartDiagnostics(agreed))
        } else {
            None
        }
    } else if tells(command, data, per_day) {
        Some(Call::TargetsChanged)
    } else {
        None
    }
}

/// The records after something may have happened.
pub open spec fn recorded(events: Seq<Event>, event: Option<Event>) -> Seq<Event> {
    match event {
        Some(e) => bounded::newest(events, e, 8),
        None => events,
    }
}

/// Energy EVSE over one piece of equipment, with at most `T` targets for a day.
pub struct EnergyEvse<H: EvseHooks, const T: usize> {
    /// The hardware, with what it was told.
    pub hooks: Equipment<H>,
    /// The features.
    pub feature_map: u32,
    /// What the equipment is told.
    pub power: Power,
    /// The targets.
    pub week: Week<T>,
    /// What happened and was not taken yet.
    pub events: List<Event, 8>,
}

impl<H: EvseHooks, const T: usize> EnergyEvse<H, T> {
    /// Whether the hardware and the features are the same.
    pub open spec fn same_equipment(&self, other: &Self) -> bool {
        self.hooks == other.hooks && self.feature_map == other.feature_map
    }

    /// Whether the hardware, told to do what a command asks, may agree or not.
    pub open spec fn does(&self, command: CommandId, data: Option<Seq<u8>>, hw: Hardware, agreed: bool) -> bool {
        if command == DISABLE {
            call_ensures(H::disable, (&self.hooks.product(),), agreed)
        } else if command == ENABLE_CHARGING {
            charging_request(self.power, hw.fault, data) matches Ok((_, minimum, maximum)) ==> call_ensures(
                H::enable_charging,
                (&self.hooks.product(), minimum, maximum),
                agreed,
            )
        } else if command == ENABLE_DISCHARGING {
            discharging_request(self.power, hw.fault, data) matches Ok((_, maximum)) ==> call_ensures(
                H::enable_discharging,
                (&self.hooks.product(), maximum),
                agreed,
            )
        } else {
            command == START_DIAGNOSTICS && reported(self.power, hw.fault) is Disabled ==> call_ensures(
                H::start_diagnostics,
                (&self.hooks.product(),),
                agreed,
            )
        }
    }

    /// The description for features and for what the product chooses.
    pub fn conforming(features: u32, optional: &Optional) -> (r: Result<Conforming, ErrorCode>)
        ensures
            conformance::outcome(r) == conformance::conform(defined(), features, optional@),
    {
        Conforming::new(&definition(), features, optional)
    }

    /// A cluster over the hardware, with nothing allowed.
    pub fn new(hooks: H, feature_map: u32) -> (evse: Self)
        ensures
            evse.hooks.product() == hooks,
            evse.hooks.calls() == Seq::<Call>::empty(),
            evse.feature_map == feature_map,
            evse.power == (Power {
                supply: SupplyStateEnum::Disabled,
                charging_until: Some(0),
                discharging_until: Some(0),
                minimum_charge_current: 0,
                maximum_charge_current: 0,
                maximum_discharge_current: 0,
            }),
            evse.week@ == empty_week(),
            evse.events@ == Seq::<Event>::empty(),
    {
        EnergyEvse {
            hooks: Equipment::new(hooks),
            feature_map,
            power: Power {
                supply: SupplyStateEnum::Disabled,
                charging_until: Some(0),
                discharging_until: Some(0),
                minimum_charge_current: 0,
                maximum_charge_current: 0,
                maximum_discharge_current: 0,
            },
            week: Week::new(),
            events: List::new(),
        }
    }

    /// Restores the windows that a restart interrupted; the supply follows from them.
    pub fn start(&mut self, charging_until: Option<u32>, discharging_until: Option<u32>)
        ensures
            final(self).same_equipment(old(self)),
            exists|utc: Option<u32>|
                call_ensures(H::utc, (&old(self).hooks.product(),), utc) && final(self).power == #[trigger] resupplied(
                    restored(old(self).power, charging_until, discharging_until),
                    old(self).feature_map,
                    utc,
                ),
            final(self).week@ == old(self).week@,
            final(self).events@ == old(self).events@,
    {
        self.power.charging_until = charging_until;
        self.power.discharging_until = discharging_until;
        let utc: Option<u32> = self.hooks.utc();
        self.resupply(utc);
    }

    /// Works the supply out again from the two windows at a time.
    pub fn resupply(&mut self, utc: Option<u32>)
        ensures
            final(self).power == resupplied(old(self).power, old(self).feature_map, utc),
            final(self).week@ == old(self).week@,
            final(self).events@ == old(self).events@,
            final(self).feature_map == old(self).feature_map,
            final(self).hooks == old(self).hooks,
    {
        match self.power.supply {
            SupplyStateEnum::DisabledDiagnostics | SupplyStateEnum::DisabledError => {
                return ;
            },
            _ => {},
        }
        let charging: bool = window_open(self.power.charging_until, utc);
        let discharging: bool = window_open(self.power.discharging_until, utc) && self.feature_map & V2_X != 0;
        self.power.supply = match (charging, discharging) {
            (true, true) => SupplyStateEnum::Enabled,
            (true, false) => SupplyStateEnum::ChargingEnabled,
            (false, true) => SupplyStateEnum::DischargingEnabled,
            (false, false) => SupplyStateEnum::Disabled,
        };
    }

    /// `SupplyState`, given a fault or none.
    pub fn supply_over(&self, fault: FaultStateEnum) -> (s: SupplyStateEnum)
        ensures
            s == reported(self.power, fault),
    {
        if fault != FaultStateEnum::NoError {
            SupplyStateEnum::DisabledError
        } else {
            self.power.supply
        }
    }

    /// `SupplyState`.
    pub fn supply_state(&self) -> (s: SupplyStateEnum)
        ensures
            exists|fault: FaultStateEnum| #[trigger]
                call_ensures(H::fault, (&self.hooks.product(),), fault) && s == reported(self.power, fault),
    {
        let fault: FaultStateEnum = self.hooks.fault();
        self.supply_over(fault)
    }

    /// `ChargingEnabledUntil`.
    pub fn charging_enabled_until(&self) -> (t: Option<u32>)
        ensures
            t == self.power.charging_until,
    {
        self.power.charging_until
    }

    /// `DischargingEnabledUntil`.
    pub fn discharging_enabled_until(&self) -> (t: Option<u32>)
        ensures
            t == self.power.discharging_until,
    {
        self.power.discharging_until
    }

    /// `MaximumChargeCurrent`, given what the user allows.
    pub fn maximum_charge_current_over(&self, user: i64) -> (ma: i64)
        ensures
            ma == allowed_current(self.power, user),
    {
        if user > 0 && user < self.power.maximum_charge_current {
            user
        } else {
            self.power.maximum_charge_current
        }
    }

    /// `MaximumChargeCurrent`, in milliamperes: never above what was commanded.
    pub fn maximum_charge_current(&self) -> (ma: i64)
        ensures
            exists|user: i64| #[trigger]
                call_ensures(H::user_maximum_charge_current, (&self.hooks.product(),), user) && ma == allowed_current(self.power, user),
            ma <= self.power.maximum_charge_current,
    {
        let user: i64 = self.hooks.user_maximum_charge_current();
        self.maximum_charge_current_over(user)
    }

    /// Whether current is flowing.
    pub fn transferring(&self) -> (r: bool)
        ensures
            exists|state: Option<StateEnum>| #[trigger] call_ensures(H::state, (&self.hooks.product(),), state) && r == flowing(state),
    {
        is_flowing(self.hooks.state())
    }

    /// The targets of a day, given by its bit; none for anything else.
    pub fn targets_for(&self, day: u8) -> (targets: Vec<ChargingTargetStruct>)
        ensures
            match bounded::first(Seq::new(7, |d: int| d), |d: int| day_bit(d) == day) {
                Some(d) => targets@ == self.week@[d],
                None => targets@ == Seq::<ChargingTargetStruct>::empty(),
            },
    {
        let ghost days = Seq::new(7, |d: int| d);
        let ghost p = |d: int| day_bit(d) == day;
        let mut d: usize = 0;
        while d < 7
            invariant
                d <= 7,
                days == Seq::new(7, |d: int| d),
                p == (|d: int| day_bit(d) == day),
                bounded::first(days, p) == bounded::first_from(days, p, d as int),
            decreases 7 - d,
        {
            if bit_of(d) == day {
                return copy_of(self.week.day(d));
            }
            d = d + 1;
        }
        Vec::new()
    }

    /// The diagnostics are done: the supply is disabled again.
    pub fn diagnostics_complete(&mut self)
        ensures
            final(self).power == (Power {
                supply: if old(self).power.supply is DisabledDiagnostics {
                    SupplyStateEnum::Disabled
                } else {
                    old(self).power.supply
                },
                ..old(self).power
            }),
            final(self).week@ == old(self).week@,
            final(self).events@ == old(self).events@,
            final(self).same_equipment(old(self)),
    {
        if self.power.supply == SupplyStateEnum::DisabledDiagnostics {
            self.power.supply = SupplyStateEnum::Disabled;
        }
    }

    /// Ends whichever window is past, and records that current stopped where it did.
    pub fn poll(&mut self)
        ensures
            exists|utc: Option<u32>, state: Option<StateEnum>| #[trigger]
                call_ensures(H::utc, (&old(self).hooks.product(),), utc) && #[trigger] call_ensures(H::state, (&old(self).hooks.product(),), state)
                    && polled(old(self).power, old(self).events@, old(self).feature_map, utc, state) == (
                    final(self).power,
                    final(self).events@,
                ),
            final(self).week@ == old(self).week@,
            final(self).same_equipment(old(self)),
    {
        let utc: Option<u32> = self.hooks.utc();
        let state: Option<StateEnum> = self.hooks.state();
        let before: SupplyStateEnum = self.power.supply;
        self.resupply(utc);
        if before != self.power.supply && is_flowing(state) {
            self.events.push_newest(Event::EnergyTransferStopped(EnergyTransferStoppedReasonEnum::EVSEStopped));
        }
        proof {
            assert(polled(old(self).power, old(self).events@, old(self).feature_map, utc, state) == (
                self.power,
                self.events@,
            ));
        }
    }

    /// Records something that the hardware noticed.
    pub fn record(&mut self, event: Event)
        ensures
            final(self).events@ == bounded::newest(old(self).events@, event, 8),
            final(self).power == old(self).power,
            final(self).week@ == old(self).week@,
            final(self).same_equipment(old(self)),
    {
        self.events.push_newest(event);
    }

    /// Takes the records that were collected.
    pub fn take_events(&mut self) -> (events: Vec<Event>)
        ensures
            events@ == old(self).events@,
            final(self).events@ == Seq::<Event>::empty(),
            final(self).power == old(self).power,
            final(self).week@ == old(self).week@,
            final(self).same_equipment(old(self)),
    {
        self.events.take()
    }

    fn refuses_commands(&self, fault: FaultStateEnum) -> (r: bool)
        ensures
            r == refuses(self.power, fault),
    {
        fault != FaultStateEnum::NoError || self.power.supply == SupplyStateEnum::DisabledDiagnostics
    }

    fn read_charging(&self, data: Option<&[u8]>, fault: FaultStateEnum) -> (r: Result<(Option<u32>, i64, i64), Status>)
        ensures
            r == charging_request(self.power, fault, im::octets(data)),
    {
        let schema: Vec<Field> = vec![
            Field(0, Kind::U32, Need::Nullable),
            Field(1, Kind::I64, Need::Required),
            Field(2, Kind::I64, Need::Required),
        ];
        proof {
            assert(schema@ =~= charging_schema());
        }
        let f: Fields = match fields::read_some(data, &schema) {
            Err(status) => return Err(status),
            Ok(f) => f,
        };
        match (f.int64(1), f.int64(2)) {
            (Some(minimum), Some(maximum)) => {
                if self.refuses_commands(fault) {
                    return Err(Status::Failure);
                }
                if minimum < 0 || maximum < 0 || minimum > maximum {
                    return Err(Status::ConstraintError);
                }
                Ok((f.num32(0), minimum, maximum))
            },
            _ => Err(Status::InvalidCommand),
        }
    }

    fn read_discharging(&self, data: Option<&[u8]>, fault: FaultStateEnum) -> (r: Result<(Option<u32>, i64), Status>)
        ensures
            r == discharging_request(self.power, fault, im::octets(data)),
    {
        let schema: Vec<Field> = vec![Field(0, Kind::U32, Need::Nullable), Field(1, Kind::I64, Need::Required)];
        proof {
            assert(schema@ =~= discharging_schema());
        }
        let f: Fields = match fields::read_some(data, &schema) {
            Err(status) => return Err(status),
            Ok(f) => f,
        };
        match f.int64(1) {
            Some(maximum) => {
                if self.refuses_commands(fault) {
                    return Err(Status::Failure);
                }
                if maximum < 0 {
                    return Err(Status::ConstraintError);
                }
                Ok((f.num32(0), maximum))
            },
            None => Err(Status::InvalidCommand),
        }
    }

    /// Takes the targets of `SetTargets` over, all of them or none.
    pub fn set_targets(&mut self, data: Option<&[u8]>) -> (r: Result<(), Status>)
        ensures
            final(self).power == old(self).power,
            final(self).events@ == old(self).events@,
            final(self).feature_map == old(self).feature_map,
            final(self).hooks == old(self).hooks,
            match targets_request(im::octets(data), T as nat) {
                Err(status) => r == Err::<(), Status>(status) && final(self).week@ == old(self).week@,
                Ok(plan) => r is Ok && final(self).week@ == taken_over(old(self).week@, plan, plan.len() as int),
            },
    {
        let schema: Vec<Field> = vec![Field(0, Kind::Array, Need::Required)];
        proof {
            assert(schema@ =~= targets_schema());
        }
        let f: Fields = match fields::read_some(data, &schema) {
            Err(status) => return Err(status),
            Ok(f) => f,
        };
        match f.container(0) {
            Some(start) => {
                let list: Items = tlv::read_items(f.data, start);
                match read_plan(f.data, &list.items, T) {
                    Err(status) => Err(status),
                    Ok(plan) => {
                        let ghost week = self.week@;
                        let ghost models = bounded::models(plan@);
                        let mut n: usize = 0;
                        let _ = self.week.day(0);
                        while n < plan.len()
                            invariant
                                n <= plan@.len(),
                                models == bounded::models(plan@),
                                self.week@ == taken_over(week, models, n as int),
                                self.week@.len() == 7,
                                self.power == old(self).power,
                                self.events@ == old(self).events@,
                                self.feature_map == old(self).feature_map,
                                self.hooks == old(self).hooks,
                                forall|i: int| 0 <= i < plan@.len() ==> (#[trigger] plan@[i]).targets@.len() <= T,
                            decreases plan.len() - n,
                        {
                            self.week.take_over(&plan, n, Ghost(week));
                            n = n + 1;
                        }
                        Ok(())
                    },
                }
            },
            None => Err(Status::InvalidCommand),
        }
    }

    /// The answer to `GetTargets`.
    pub fn get_targets(&self, tag: Tag) -> (out: Vec<u8>)
        ensures
            out@ == targets_response(self.week@, tag),
    {
        let mut items: Vec<u8> = Vec::new();
        let mut d: usize = 0;
        while d < 7
            invariant
                d <= 7,
                items@ == days_bytes(self.week@, d as int),
            decreases 7 - d,
        {
            let list: &List<ChargingTargetStruct, T> = self.week.day(d);
            let targets: &[ChargingTargetStruct] = list.as_slice();
            if targets.len() > 0 {
                let mut inner: Vec<u8> = Vec::new();
                let mut k: usize = 0;
                proof {
                    assert(targets@.take(0) =~= Seq::<ChargingTargetStruct>::empty());
                }
                while k < targets.len()
                    invariant
                        k <= targets@.len(),
                        inner@ == tlv::concat(targets@.take(k as int), target_bytes()),
                    decreases targets.len() - k,
                {
                    encode_target(&mut inner, &targets[k]);
                    proof {
                        tlv::lemma_concat_take(targets@, k as int, target_bytes());
                    }
                    k = k + 1;
                }
                proof {
                    assert(targets@.take(k as int) =~= targets@);
                }
                let mut body: Vec<u8> = Vec::new();
                tlv::put_unsigned(&mut body, Tag::Context(0), bit_of(d) as u64);
                tlv::put_array(&mut body, Tag::Context(1), &inner);
                proof {
                    assert(body@ =~= tlv::unsigned_bytes(Tag::Context(0), day_bit(d as int) as u64) + tlv::array_bytes(
                        Tag::Context(1),
                        inner@,
                    ));
                }
                tlv::put_structure(&mut items, Tag::Anonymous, &body);
            } else {
                proof {
                    assert(items@ + Seq::<u8>::empty() =~= items@);
                }
            }
            d = d + 1;
        }
        let mut body: Vec<u8> = Vec::new();
        tlv::put_array(&mut body, Tag::Context(0), &items);
        let mut out: Vec<u8> = Vec::new();
        tlv::put_structure(&mut out, tag, &body);
        proof {
            assert(body@ =~= tlv::array_bytes(Tag::Context(0), items@));
            assert(out@ =~= targets_response(self.week@, tag));
        }
        out
    }

    fn disable_supply(&mut self, transferring: bool)
        ensures
            final(self).power == (Power {
                charging_until: Some(0),
                discharging_until: Some(0),
                supply: if old(self).power.supply is DisabledDiagnostics {
                    old(self).power.supply
                } else {
                    SupplyStateEnum::Disabled
                },
                ..old(self).power
            }),
            final(self).events@ == recorded(
                old(self).events@,
                if transferring {
                    Some(Event::EnergyTransferStopped(EnergyTransferStoppedReasonEnum::EVSEStopped))
                } else {
                    None
                },
            ),
            final(self).week@ == old(self).week@,
            final(self).same_equipment(old(self)),
    {
        self.power.charging_until = Some(0);
        self.power.discharging_until = Some(0);
        if self.power.supply != SupplyStateEnum::DisabledDiagnostics {
            self.power.supply = SupplyStateEnum::Disabled;
        }
        if transferring {
            self.events.push_newest(Event::EnergyTransferStopped(EnergyTransferStoppedReasonEnum::EVSEStopped));
        }
    }
}

/// What a poll comes to.
pub open spec fn polled(p: Power, events: Seq<Event>, features: u32, utc: Option<u32>, state: Option<StateEnum>) -> (
    Power,
    Seq<Event>,
) {
    let after = resupplied(p, features, utc);
    (
        after,
        if after.supply != p.supply && flowing(state) {
            bounded::newest(events, Event::EnergyTransferStopped(EnergyTransferStoppedReasonEnum::EVSEStopped), 8)
        } else {
            events
        },
    )
}

fn window_open(until: Option<u32>, utc: Option<u32>) -> (r: bool)
    ensures
        r == open_at(until, utc),
{
    match until {
        None => true,
        Some(end) => if end == 0 {
            false
        } else {
            match utc {
                Some(now) => end > now,
                None => true,
            }
        },
    }
}

fn is_flowing(state: Option<StateEnum>) -> (r: bool)
    ensures
        r == flowing(state),
{
    match state {
        Some(StateEnum::PluggedInCharging) | Some(StateEnum::PluggedInDischarging) => true,
        _ => false,
    }
}

fn copy_of<const T: usize>(list: &List<ChargingTargetStruct, T>) -> (v: Vec<ChargingTargetStruct>)
    ensures
        v@ == list@,
{
    let items: &[ChargingTargetStruct] = list.as_slice();
    let mut v: Vec<ChargingTargetStruct> = Vec::new();
    let mut i: usize = 0;
    while i < items.len()
        invariant
            i <= items@.len(),
            v@ == items@.take(i as int),
        decreases items.len() - i,
    {
        v.push(items[i]);
        i = i + 1;
        proof {
            assert(items@.take(i as int) =~= items@.take(i - 1).push(items@[i - 1]));
        }
    }
    proof {
        assert(items@.take(i as int) =~= items@);
    }
    v
}

/// What the hardware says of itself, for a read.
pub struct Readings<'a> {
    /// What the pilot signal says.
    pub state: Option<StateEnum>,
    /// A fault, or none.
    pub fault: FaultStateEnum,
    /// What the circuit can carry.
    pub circuit_capacity: i64,
    /// What the user allows.
    pub user_maximum: i64,
    /// How long to wait at most before a start.
    pub delay_window: u32,
    /// When it will next charge, and to what.
    pub next: NextCharge,
    /// How far the vehicle goes.
    pub efficiency: Option<u16>,
    /// How full the battery is.
    pub state_of_charge: Option<u8>,
    /// What the battery holds.
    pub battery_capacity: Option<i64>,
    /// Which vehicle it is.
    pub vehicle_id: Option<&'a str>,
    /// Which session it is.
    pub session_id: Option<u32>,
    /// How long it has been running.
    pub session_duration: Option<u32>,
    /// What went into the vehicle.
    pub charged: Option<i64>,
    /// What came out of it.
    pub discharged: Option<i64>,
}

/// A number that may be missing, wide enough for any.
pub open spec fn wide32(v: Option<u32>) -> Option<u64> {
    match v {
        Some(v) => Some(v as u64),
        None => None,
    }
}

/// A number that may be missing, wide enough for any.
pub open spec fn wide8(v: Option<u8>) -> Option<u64> {
    match v {
        Some(v) => Some(v as u64),
        None => None,
    }
}

/// What a read is answered with, given what the hardware says of itself.
pub open spec fn attribute_answered(p: Power, attribute: AttributeId, tag: Tag, hw: Readings) -> ReadAnswer {
    if attribute == STATE {
        Ok(
            match hw.state {
                Some(s) => tlv::unsigned_bytes(tag, state_value(s) as u64),
                None => tlv::null_bytes(tag),
            },
        )
    } else if attribute == SUPPLY_STATE {
        Ok(tlv::unsigned_bytes(tag, supply_value(reported(p, hw.fault)) as u64))
    } else if attribute == FAULT_STATE {
        Ok(tlv::unsigned_bytes(tag, fault_value(hw.fault) as u64))
    } else if attribute == CHARGING_ENABLED_UNTIL {
        Ok(tlv::nullable_bytes(tag, wide32(p.charging_until)))
    } else if attribute == DISCHARGING_ENABLED_UNTIL {
        Ok(tlv::nullable_bytes(tag, wide32(p.discharging_until)))
    } else if attribute == CIRCUIT_CAPACITY {
        Ok(tlv::signed_bytes(tag, hw.circuit_capacity))
    } else if attribute == MINIMUM_CHARGE_CURRENT {
        Ok(tlv::signed_bytes(tag, p.minimum_charge_current))
    } else if attribute == MAXIMUM_CHARGE_CURRENT {
        Ok(tlv::signed_bytes(tag, allowed_current(p, hw.user_maximum)))
    } else if attribute == MAXIMUM_DISCHARGE_CURRENT {
        Ok(tlv::signed_bytes(tag, p.maximum_discharge_current))
    } else if attribute == USER_MAXIMUM_CHARGE_CURRENT {
        Ok(tlv::signed_bytes(tag, hw.user_maximum))
    } else if attribute == RANDOMIZATION_DELAY_WINDOW {
        Ok(tlv::unsigned_bytes(tag, hw.delay_window as u64))
    } else if attribute == NEXT_CHARGE_START_TIME {
        Ok(tlv::nullable_bytes(tag, wide32(hw.next.start_time)))
    } else if attribute == NEXT_CHARGE_TARGET_TIME {
        Ok(tlv::nullable_bytes(tag, wide32(hw.next.target_time)))
    } else if attribute == NEXT_CHARGE_REQUIRED_ENERGY {
        Ok(nullable_signed_bytes(tag, hw.next.required_energy))
    } else if attribute == NEXT_CHARGE_TARGET_SO_C {
        Ok(tlv::nullable_bytes(tag, wide8(hw.next.target_soc)))
    } else if attribute == APPROXIMATE_EV_EFFICIENCY {
        Ok(
            match hw.efficiency {
                Some(v) => tlv::unsigned_bytes(tag, v as u64),
                None => tlv::null_bytes(tag),
            },
        )
    } else if attribute == STATE_OF_CHARGE {
        Ok(tlv::nullable_bytes(tag, wide8(hw.state_of_charge)))
    } else if attribute == BATTERY_CAPACITY {
        Ok(nullable_signed_bytes(tag, hw.battery_capacity))
    } else if attribute == VEHICLE_ID {
        Ok(
            match hw.vehicle_id {
                Some(id) => tlv::text_bytes(tag, id@),
                None => tlv::null_bytes(tag),
            },
        )
    } else if attribute == SESSION_ID {
        Ok(tlv::nullable_bytes(tag, wide32(hw.session_id)))
    } else if attribute == SESSION_DURATION {
        Ok(tlv::nullable_bytes(tag, wide32(hw.session_duration)))
    } else if attribute == SESSION_ENERGY_CHARGED {
        Ok(nullable_signed_bytes(tag, hw.charged))
    } else if attribute == SESSION_ENERGY_DISCHARGED {
        Ok(nullable_signed_bytes(tag, hw.discharged))
    } else {
        Err(Status::UnsupportedAttribute)
    }
}

fn put_nullable32(out: &mut Vec<u8>, tag: Tag, v: Option<u32>)
    ensures
        final(out)@ == old(out)@ + tlv::nullable_bytes(tag, wide32(v)),
{
    match v {
        Some(v) => tlv::put_unsigned(out, tag, v as u64),
        None => tlv::put_null(out, tag),
    }
}

fn put_nullable8(out: &mut Vec<u8>, tag: Tag, v: Option<u8>)
    ensures
        final(out)@ == old(out)@ + tlv::nullable_bytes(tag, wide8(v)),
{
    match v {
        Some(v) => tlv::put_unsigned(out, tag, v as u64),
        None => tlv::put_null(out, tag),
    }
}

fn put_nullable_signed(out: &mut Vec<u8>, tag: Tag, v: Option<i64>)
    ensures
        final(out)@ == old(out)@ + nullable_signed_bytes(tag, v),
{
    match v {
        Some(v) => tlv::put_signed(out, tag, v),
        None => tlv::put_null(out, tag),
    }
}

/// Answers a read, given what the hardware says of itself.
#[verifier::rlimit(40)]
pub fn read_attribute(p: &Power, attribute: AttributeId, tag: Tag, hw: &Readings) -> (a: Result<Vec<u8>, Status>)
    ensures
        im::read_answer(a) == attribute_answered(*p, attribute, tag, *hw),
{
    let mut out: Vec<u8> = Vec::new();
    match attribute {
        STATE => match hw.state {
            Some(s) => tlv::put_unsigned(&mut out, tag, s.value() as u64),
            None => tlv::put_null(&mut out, tag),
        },
        SUPPLY_STATE => {
            let s: SupplyStateEnum = if hw.fault != FaultStateEnum::NoError {
                SupplyStateEnum::DisabledError
            } else {
                p.supply
            };
            tlv::put_unsigned(&mut out, tag, s.value() as u64);
        },
        FAULT_STATE => tlv::put_unsigned(&mut out, tag, hw.fault.value() as u64),
        CHARGING_ENABLED_UNTIL => put_nullable32(&mut out, tag, p.charging_until),
        DISCHARGING_ENABLED_UNTIL => put_nullable32(&mut out, tag, p.discharging_until),
        CIRCUIT_CAPACITY => tlv::put_signed(&mut out, tag, hw.circuit_capacity),
        MINIMUM_CHARGE_CURRENT => tlv::put_signed(&mut out, tag, p.minimum_charge_current),
        MAXIMUM_CHARGE_CURRENT => {
            let ma: i64 = if hw.user_maximum > 0 && hw.user_maximum < p.maximum_charge_current {
                hw.user_maximum
            } else {
                p.maximum_charge_current
            };
            tlv::put_signed(&mut out, tag, ma);
        },
        MAXIMUM_DISCHARGE_CURRENT => tlv::put_signed(&mut out, tag, p.maximum_discharge_current),
        USER_MAXIMUM_CHARGE_CURRENT => tlv::put_signed(&mut out, tag, hw.user_maximum),
        RANDOMIZATION_DELAY_WINDOW => tlv::put_unsigned(&mut out, tag, hw.delay_window as u64),
        NEXT_CHARGE_START_TIME => put_nullable32(&mut out, tag, hw.next.start_time),
        NEXT_CHARGE_TARGET_TIME => put_nullable32(&mut out, tag, hw.next.target_time),
        NEXT_CHARGE_REQUIRED_ENERGY => put_nullable_signed(&mut out, tag, hw.next.required_energy),
        NEXT_CHARGE_TARGET_SO_C => put_nullable8(&mut out, tag, hw.next.target_soc),
        APPROXIMATE_EV_EFFICIENCY => match hw.efficiency {
            Some(v) => tlv::put_unsigned(&mut out, tag, v as u64),
            None => tlv::put_null(&mut out, tag),
        },
        STATE_OF_CHARGE => put_nullable8(&mut out, tag, hw.state_of_charge),
        BATTERY_CAPACITY => put_nullable_signed(&mut out, tag, hw.battery_capacity),
        VEHICLE_ID => match hw.vehicle_id {
            Some(id) => tlv::put_text(&mut out, tag, id),
            None => tlv::put_null(&mut out, tag),
        },
        SESSION_ID => put_nullable32(&mut out, tag, hw.session_id),
        SESSION_DURATION => put_nullable32(&mut out, tag, hw.session_duration),
        SESSION_ENERGY_CHARGED => put_nullable_signed(&mut out, tag, hw.charged),
        SESSION_ENERGY_DISCHARGED => put_nullable_signed(&mut out, tag, hw.discharged),
        _ => {
            return Err(Status::UnsupportedAttribute);
        },
    }
    proof {
        assert(attribute_answered(*p, attribute, tag, *hw) is Ok);
        let expected = attribute_answered(*p, attribute, tag, *hw)->Ok_0;
        assert(Seq::<u8>::empty() + expected =~= expected);
        assert(out@ == Seq::<u8>::empty() + expected);
    }
    Ok(out)
}

/// The cluster's definition.
pub open spec fn defined() -> DefinitionModel {
    DefinitionModel {
        id: ID,
        revision: REVISION,
        features: 0x1F,
        attributes: seq![
            conformance::reads(STATE, Conformance::Mandatory),
            conformance::reads(SUPPLY_STATE, Conformance::Mandatory),
            conformance::reads(FAULT_STATE, Conformance::Mandatory),
            conformance::reads(CHARGING_ENABLED_UNTIL, Conformance::Mandatory),
            conformance::reads(DISCHARGING_ENABLED_UNTIL, Conformance::With(V2_X)),
            conformance::reads(CIRCUIT_CAPACITY, Conformance::Mandatory),
            conformance::reads(MINIMUM_CHARGE_CURRENT, Conformance::Mandatory),
            conformance::reads(MAXIMUM_CHARGE_CURRENT, Conformance::Mandatory),
            conformance::reads(MAXIMUM_DISCHARGE_CURRENT, Conformance::With(V2_X)),
            conformance::writes(USER_MAXIMUM_CHARGE_CURRENT, Privilege::Manage, Conformance::Optional),
            conformance::writes(RANDOMIZATION_DELAY_WINDOW, Privilege::Manage, Conformance::Optional),
            conformance::reads(NEXT_CHARGE_START_TIME, Conformance::With(CHARGING_PREFERENCES)),
            conformance::reads(NEXT_CHARGE_TARGET_TIME, Conformance::With(CHARGING_PREFERENCES)),
            conformance::reads(NEXT_CHARGE_REQUIRED_ENERGY, Conformance::With(CHARGING_PREFERENCES)),
            conformance::reads(NEXT_CHARGE_TARGET_SO_C, Conformance::With(CHARGING_PREFERENCES)),
            conformance::writes(APPROXIMATE_EV_EFFICIENCY, Privilege::Manage, Conformance::With(CHARGING_PREFERENCES)),
            conformance::reads(STATE_OF_CHARGE, Conformance::With(SO_C_REPORTING)),
            conformance::reads(BATTERY_CAPACITY, Conformance::With(SO_C_REPORTING)),
            conformance::reads(VEHICLE_ID, Conformance::With(PLUG_AND_CHARGE)),
            conformance::reads(SESSION_ID, Conformance::Mandatory),
            conformance::reads(SESSION_DURATION, Conformance::Mandatory),
            conformance::reads(SESSION_ENERGY_CHARGED, Conformance::Mandatory),
            conformance::reads(SESSION_ENERGY_DISCHARGED, Conformance::With(V2_X)),
        ],
        commands: seq![
            conformance::invokes_with(DISABLE, Privilege::Operate, dm::timed_access(), None, Conformance::Mandatory),
            conformance::invokes_with(ENABLE_CHARGING, Privilege::Operate, dm::timed_access(), None, Conformance::Mandatory),
            conformance::invokes_with(
                ENABLE_DISCHARGING,
                Privilege::Operate,
                dm::timed_access(),
                None,
                Conformance::With(V2_X),
            ),
            conformance::invokes_with(
                START_DIAGNOSTICS,
                Privilege::Operate,
                dm::timed_access(),
                None,
                Conformance::Optional,
            ),
            conformance::invokes_with(
                SET_TARGETS,
                Privilege::Operate,
                dm::timed_access(),
                None,
                Conformance::With(CHARGING_PREFERENCES),
            ),
            conformance::invokes_with(
                GET_TARGETS,
                Privilege::Operate,
                dm::timed_access(),
                Some(GET_TARGETS_RESPONSE),
                Conformance::With(CHARGING_PREFERENCES),
            ),
            conformance::invokes_with(
                CLEAR_TARGETS,
                Privilege::Operate,
                dm::timed_access(),
                None,
                Conformance::With(CHARGING_PREFERENCES),
            ),
        ],
        generated: seq![
            (GET_TARGETS_RESPONSE, Conformance::With(CHARGING_PREFERENCES)),
        ],
        events: seq![
            conformance::tells(EV_CONNECTED, EventPriority::Info, Conformance::Mandatory),
            conformance::tells(EV_NOT_DETECTED, EventPriority::Info, Conformance::Mandatory),
            conformance::tells(ENERGY_TRANSFER_STARTED, EventPriority::Info, Conformance::Mandatory),
            conformance::tells(ENERGY_TRANSFER_STOPPED, EventPriority::Info, Conformance::Mandatory),
            conformance::tells(FAULT, EventPriority::Critical, Conformance::Mandatory),
            conformance::tells(RFID_READ, EventPriority::Info, Conformance::With(RFID)),
        ],
    }
}

/// The cluster's definition.
pub fn definition() -> (d: Definition)
    ensures
        d@ == defined(),
{
    let d: Definition = Definition {
        id: ID,
        revision: REVISION,
        features: 0x1F,
        attributes: vec![
            conformance::readable(STATE, Conformance::Mandatory),
            conformance::readable(SUPPLY_STATE, Conformance::Mandatory),
            conformance::readable(FAULT_STATE, Conformance::Mandatory),
            conformance::readable(CHARGING_ENABLED_UNTIL, Conformance::Mandatory),
            conformance::readable(DISCHARGING_ENABLED_UNTIL, Conformance::With(V2_X)),
            conformance::readable(CIRCUIT_CAPACITY, Conformance::Mandatory),
            conformance::readable(MINIMUM_CHARGE_CURRENT, Conformance::Mandatory),
            conformance::readable(MAXIMUM_CHARGE_CURRENT, Conformance::Mandatory),
            conformance::readable(MAXIMUM_DISCHARGE_CURRENT, Conformance::With(V2_X)),
            conformance::writable(USER_MAXIMUM_CHARGE_CURRENT, Privilege::Manage, Conformance::Optional),
            conformance::writable(RANDOMIZATION_DELAY_WINDOW, Privilege::Manage, Conformance::Optional),
            conformance::readable(NEXT_CHARGE_START_TIME, Conformance::With(CHARGING_PREFERENCES)),
            conformance::readable(NEXT_CHARGE_TARGET_TIME, Conformance::With(CHARGING_PREFERENCES)),
            conformance::readable(NEXT_CHARGE_REQUIRED_ENERGY, Conformance::With(CHARGING_PREFERENCES)),
            conformance::readable(NEXT_CHARGE_TARGET_SO_C, Conformance::With(CHARGING_PREFERENCES)),
            conformance::writable(APPROXIMATE_EV_EFFICIENCY, Privilege::Manage, Conformance::With(CHARGING_PREFERENCES)),
            conformance::readable(STATE_OF_CHARGE, Conformance::With(SO_C_REPORTING)),
            conformance::readable(BATTERY_CAPACITY, Conformance::With(SO_C_REPORTING)),
            conformance::readable(VEHICLE_ID, Conformance::With(PLUG_AND_CHARGE)),
            conformance::readable(SESSION_ID, Conformance::Mandatory),
            conformance::readable(SESSION_DURATION, Conformance::Mandatory),
            conformance::readable(SESSION_ENERGY_CHARGED, Conformance::Mandatory),
            conformance::readable(SESSION_ENERGY_DISCHARGED, Conformance::With(V2_X)),
        ],
        commands: vec![
            conformance::invocable_with(DISABLE, Privilege::Operate, AccessQualities::timed(), None, Conformance::Mandatory),
            conformance::invocable_with(
                ENABLE_CHARGING,
                Privilege::Operate,
                AccessQualities::timed(),
                None,
                Conformance::Mandatory,
            ),
            conformance::invocable_with(
                ENABLE_DISCHARGING,
                Privilege::Operate,
                AccessQualities::timed(),
                None,
                Conformance::With(V2_X),
            ),
            conformance::invocable_with(
                START_DIAGNOSTICS,
                Privilege::Operate,
                AccessQualities::timed(),
                None,
                Conformance::Optional,
            ),
            conformance::invocable_with(
                SET_TARGETS,
                Privilege::Operate,
                AccessQualities::timed(),
                None,
                Conformance::With(CHARGING_PREFERENCES),
            ),
            conformance::invocable_with(
                GET_TARGETS,
                Privilege::Operate,
                AccessQualities::timed(),
                Some(GET_TARGETS_RESPONSE),
                Conformance::With(CHARGING_PREFERENCES),
            ),
            conformance::invocable_with(
                CLEAR_TARGETS,
                Privilege::Operate,
                AccessQualities::timed(),
                None,
                Conformance::With(CHARGING_PREFERENCES),
            ),
        ],
        generated: vec![
            (GET_TARGETS_RESPONSE, Conformance::With(CHARGING_PREFERENCES)),
        ],
        events: vec![
            conformance::event(EV_CONNECTED, EventPriority::Info, Conformance::Mandatory),
            conformance::event(EV_NOT_DETECTED, EventPriority::Info, Conformance::Mandatory),
            conformance::event(ENERGY_TRANSFER_STARTED, EventPriority::Info, Conformance::Mandatory),
            conformance::event(ENERGY_TRANSFER_STOPPED, EventPriority::Info, Conformance::Mandatory),
            conformance::event(FAULT, EventPriority::Critical, Conformance::Mandatory),
            conformance::event(RFID_READ, EventPriority::Info, Conformance::With(RFID)),
        ],
    };
    proof {
        assert(d@.attributes =~= defined().attributes);
        assert(d@.commands =~= defined().commands);
        assert(d@.generated =~= defined().generated);
        assert(d@.events =~= defined().events);
    }
    d
}

/// Everything that a product can choose.
pub fn with_all_optional() -> (o: Optional)
    ensures
        o@ == (OptionalModel {
            attributes: seq![USER_MAXIMUM_CHARGE_CURRENT, RANDOMIZATION_DELAY_WINDOW],
            commands: seq![START_DIAGNOSTICS],
            events: Seq::empty(),
        }),
{
    let o: Optional = Optional {
        attributes: vec![USER_MAXIMUM_CHARGE_CURRENT, RANDOMIZATION_DELAY_WINDOW],
        commands: vec![START_DIAGNOSTICS],
        events: Vec::new(),
    };
    proof {
        assert(o@.attributes =~= seq![USER_MAXIMUM_CHARGE_CURRENT, RANDOMIZATION_DELAY_WINDOW]);
        assert(o@.commands =~= seq![START_DIAGNOSTICS]);
    }
    o
}

impl<H: EvseHooks, const T: usize> Cluster for EnergyEvse<H, T> {
    const ID: ClusterId = ID;
}

impl<H: EvseHooks, const T: usize> ClusterHandler for EnergyEvse<H, T> {
    open spec fn answers(&self, resolved: Resolved, ctx: InteractionContext, tag: Tag, a: ReadAnswer) -> bool {
        exists|hw: Readings<'_>| #[trigger] self.hooks.reads(hw) && a == attribute_answered(self.power, resolved.attribute, tag, hw)
    }

    open spec fn writes(
        before: &Self,
        after: &Self,
        resolved: Resolved,
        data: Seq<u8>,
        op: WriteOp,
        ctx: InteractionContext,
        r: Result<(), Status>,
    ) -> bool {
        *after == *before && r == Err::<(), Status>(Status::UnsupportedWrite)
    }

    open spec fn invokes(
        before: &Self,
        after: &Self,
        resolved: ResolvedCommand,
        fields: Option<Seq<u8>>,
        ctx: InteractionContext,
        tag: Tag,
        a: InvokeAnswer,
    ) -> bool {
        &&& after.feature_map == before.feature_map
        &&& after.hooks.product().told() == before.hooks.product().told() + (if tells(resolved.command, fields, T as nat) {
            1nat
        } else {
            0
        })
        &&& !tells(resolved.command, fields, T as nat) ==> after.hooks.product() == before.hooks.product()
        &&& exists|hw: Hardware, agreed: bool|
            {
                let o = #[trigger] commanded(
                    before.power,
                    before.week@,
                    before.feature_map,
                    T as nat,
                    resolved.command,
                    fields,
                    tag,
                    hw,
                    agreed,
                );
                &&& before.hooks.says(hw)
                &&& after.hooks.called(
                    &before.hooks,
                    call_of(before.power, resolved.command, fields, T as nat, hw.fault, agreed),
                )
                &&& before.does(resolved.command, fields, hw, agreed)
                &&& after.power == o.power
                &&& after.week@ == o.week
                &&& after.events@ == recorded(before.events@, o.event)
                &&& a == o.answer
            }
    }

    open spec fn outlives(before: &Self, after: &Self, event: Lifecycle) -> bool {
        *after == *before
    }

    open spec fn unfit(&self, resolved: ResolvedCommand) -> Status {
        Status::Failure
    }

    fn answer(&self, resolved: &Resolved, ctx: &InteractionContext, tag: Tag) -> (a: Result<Vec<u8>, Status>) {
        let hw: Readings = self.hooks.readings();
        read_attribute(&self.power, resolved.attribute, tag, &hw)
    }

    fn write(&mut self, resolved: &Resolved, data: &[u8], op: WriteOp, ctx: &InteractionContext) -> (r: Result<(), Status>) {
        Err(Status::UnsupportedWrite)
    }

    #[verifier::rlimit(40)]
    fn perform(
        &mut self,
        resolved: &ResolvedCommand,
        fields: Option<&[u8]>,
        ctx: &InteractionContext,
        tag: Tag,
    ) -> (a: Result<Reply, StatusIb>) {
        let hw: Hardware = self.hooks.hardware();
        let mut agreed: bool = true;
        let a: Result<Reply, StatusIb> = match resolved.command {
            DISABLE => {
                agreed = self.hooks.disable();
                if agreed {
                    self.disable_supply(is_flowing(hw.state));
                    im::no_response()
                } else {
                    im::refuse(Status::Failure)
                }
            },
            ENABLE_CHARGING => match self.read_charging(fields, hw.fault) {
                Err(status) => im::refuse(status),
                Ok((until, minimum, maximum)) => {
                    agreed = self.hooks.enable_charging(minimum, maximum);
                    if agreed {
                        self.power.minimum_charge_current = minimum;
                        self.power.maximum_charge_current = maximum;
                        self.power.charging_until = until;
                        self.resupply(hw.utc);
                        im::no_response()
                    } else {
                        im::refuse(Status::Failure)
                    }
                },
            },
            ENABLE_DISCHARGING => match self.read_discharging(fields, hw.fault) {
                Err(status) => im::refuse(status),
                Ok((until, maximum)) => {
                    agreed = self.hooks.enable_discharging(maximum);
                    if agreed {
                        self.power.maximum_discharge_current = maximum;
                        self.power.discharging_until = until;
                        self.resupply(hw.utc);
                        im::no_response()
                    } else {
                        im::refuse(Status::Failure)
                    }
                },
            },
            START_DIAGNOSTICS => {
                if self.supply_over(hw.fault) != SupplyStateEnum::Disabled {
                    im::refuse(Status::Failure)
                } else {
                    agreed = self.hooks.start_diagnostics();
                    if agreed {
                        self.power.supply = SupplyStateEnum::DisabledDiagnostics;
                        im::no_response()
                    } else {
                        im::refuse(Status::Failure)
                    }
                }
            },
            SET_TARGETS => match self.set_targets(fields) {
                Err(status) => im::refuse(status),
                Ok(_) => {
                    self.hooks.targets_changed();
                    im::no_response()
                },
            },
            GET_TARGETS => im::respond(GET_TARGETS_RESPONSE, self.get_targets(tag)),
            CLEAR_TARGETS => {
                self.week = Week::new();
                self.hooks.targets_changed();
                im::no_response()
            },
            _ => im::refuse(Status::UnsupportedCommand),
        };
        proof {
            let o = commanded(
                old(self).power,
                old(self).week@,
                old(self).feature_map,
                T as nat,
                resolved.command,
                im::octets(fields),
                tag,
                hw,
                agreed,
            );
            assert(old(self).hooks.says(hw));
            assert(old(self).does(resolved.command, im::octets(fields), hw, agreed));
            assert(self.power == o.power);
            assert(self.week@ == o.week);
            assert(self.events@ == recorded(old(self).events@, o.event));
        }
        a
    }

    fn on_lifecycle(&mut self, event: Lifecycle) {
    }

    fn unfit_status(&self, resolved: &ResolvedCommand) -> (s: Status) {
        Status::Failure
    }
}

/// Where neither diagnostics nor a fault hold the supply, it is what the two windows say.
pub proof fn law_the_windows_decide_the_supply(p: Power, features: u32, utc: Option<u32>)
    requires
        !(p.supply is DisabledDiagnostics) && !(p.supply is DisabledError),
    ensures
        resupplied(p, features, utc).supply == supplied(
            open_at(p.charging_until, utc),
            open_at(p.discharging_until, utc) && features & V2_X != 0,
        ),
        resupplied(resupplied(p, features, utc), features, utc) == resupplied(p, features, utc),
{
}

/// The user's limit only ever lowers the current that was commanded.
pub proof fn law_the_user_cannot_raise_the_limit(p: Power, user: i64)
    ensures
        allowed_current(p, user) <= p.maximum_charge_current,
        user > 0 ==> allowed_current(p, user) <= user,
{
}

/// A schedule changes the days that it names and no others.
pub proof fn law_other_days_are_left_alone(week: Seq<Seq<ChargingTargetStruct>>, plan: Seq<Schedule>, n: int, d: int)
    requires
        week.len() == 7,
        0 <= n <= plan.len(),
        0 <= d < 7,
        forall|i: int| 0 <= i < n ==> (#[trigger] plan[i]).days & day_bit(d) == 0,
    ensures
        taken_over(week, plan, n).len() == 7,
        taken_over(week, plan, n)[d] == week[d],
    decreases n,
{
    if n > 0 {
        law_other_days_are_left_alone(week, plan, n - 1, d);
        assert(plan[n - 1].days & day_bit(d) == 0);
    }
}

/// A week has seven days.
pub proof fn law_a_week_has_seven_days<const T: usize>(week: Week<T>)
    ensures
        week@.len() == 7,
        empty_week().len() == 7,
{
}

/// A day that schedules name together is named by one of them.
proof fn lemma_days(plan: Seq<Schedule>, i: int, x: u8)
    requires
        0 <= i < plan.len(),
        days_of(plan) & x == 0,
    ensures
        plan[i].days & x == 0,
    decreases plan.len(),
{
    let before = days_of(plan.drop_last());
    let last = plan.last().days;
    assert((before | last) & x == 0 ==> before & x == 0 && last & x == 0) by (bit_vector);
    if i < plan.len() - 1 {
        lemma_days(plan.drop_last(), i, x);
    }
}

proof fn lemma_planned_apart(b: Seq<u8>, items: Seq<Element>, n: int, per_day: nat)
    ensures
        planned(b, items, n, per_day) matches Ok(plan) ==> forall|i: int, j: int|
            0 <= i < j < plan.len() ==> (#[trigger] plan[i]).days & (#[trigger] plan[j]).days == 0,
    decreases n,
{
    if n > 0 {
        lemma_planned_apart(b, items, n - 1, per_day);
        if let Ok(plan) = planned(b, items, n, per_day) {
            let before = planned(b, items, n - 1, per_day)->Ok_0;
            assert forall|i: int, j: int| 0 <= i < j < plan.len() implies (#[trigger] plan[i]).days & (
                #[trigger] plan[j]).days == 0 by {
                if j == plan.len() - 1 {
                    let (x, y) = (plan[j].days, days_of(before));
                    assert(x & y == y & x) by (bit_vector);
                    lemma_days(before, i, x);
                }
            }
        }
    }
}

/// Schedules that are accepted name no day twice: a list in which a day is in two is refused.
pub proof fn law_no_day_is_in_two_schedules(data: Option<Seq<u8>>, per_day: nat)
    ensures
        targets_request(data, per_day) matches Ok(plan) ==> forall|i: int, j: int|
            0 <= i < j < plan.len() ==> (#[trigger] plan[i]).days & (#[trigger] plan[j]).days == 0,
{
    if let Ok(items) = fields::decode_some(data, targets_schema()) {
        if let Some(start) = fields::container(items, 0) {
            let list = tlv::scan(data->Some_0, start as int).items;
            lemma_planned_apart(data->Some_0, list, list.len() as int, per_day);
        }
    }
}

/// A day gets the targets of a schedule that names it, where no later one does.
proof fn lemma_named_day(week: Seq<Seq<ChargingTargetStruct>>, plan: Seq<Schedule>, n: int, i: int, d: int)
    requires
        0 <= i < n <= plan.len(),
        0 <= d < 7,
        plan[i].days & day_bit(d) != 0,
        forall|j: int| i < j < n ==> (#[trigger] plan[j]).days & day_bit(d) == 0,
    ensures
        taken_over(week, plan, n)[d] == plan[i].targets,
    decreases n,
{
    if i < n - 1 {
        assert(plan[n - 1].days & day_bit(d) == 0);
        lemma_named_day(week, plan, n - 1, i, d);
    }
}

/// `SetTargets` is taken over whole or not at all. Where it is refused, every day keeps its targets and
/// the hardware is not told. Where it is not, each day that a schedule names has exactly that schedule's
/// targets, every other day keeps its own, and the hardware is told once.
pub proof fn law_targets_are_set_whole_or_not_at_all<H: EvseHooks, const T: usize>(
    before: EnergyEvse<H, T>,
    after: EnergyEvse<H, T>,
    resolved: ResolvedCommand,
    data: Option<Seq<u8>>,
    ctx: InteractionContext,
    tag: Tag,
    a: InvokeAnswer,
    d: int,
)
    requires
        resolved.command == SET_TARGETS,
        EnergyEvse::<H, T>::invokes(&before, &after, resolved, data, ctx, tag, a),
        0 <= d < 7,
    ensures
        after.week@.len() == 7,
        match targets_request(data, T as nat) {
            Err(status) => {
                &&& a == im::refused(status)
                &&& after.week@ == before.week@
                &&& after.hooks == before.hooks
            },
            Ok(plan) => {
                &&& a == im::done()
                &&& after.hooks.called(&before.hooks, Some(Call::TargetsChanged))
                &&& after.hooks.product().told() == before.hooks.product().told() + 1
                &&& forall|i: int|
                    0 <= i < plan.len() && (#[trigger] plan[i]).days & day_bit(d) != 0 ==> after.week@[d] == plan[i].targets
                &&& (forall|i: int| 0 <= i < plan.len() ==> (#[trigger] plan[i]).days & day_bit(d) == 0) ==> after.week@[d]
                    == before.week@[d]
            },
        },
{
    law_a_week_has_seven_days(before.week);
    law_a_week_has_seven_days(after.week);
    law_no_day_is_in_two_schedules(data, T as nat);
    if let Ok(plan) = targets_request(data, T as nat) {
        let n = plan.len() as int;
        assert forall|i: int| 0 <= i < n && (#[trigger] plan[i]).days & day_bit(d) != 0 implies after.week@[d]
            == plan[i].targets by {
            assert forall|j: int| i < j < n implies (#[trigger] plan[j]).days & day_bit(d) == 0 by {
                let (x, y, z) = (plan[i].days, plan[j].days, day_bit(d));
                assert(plan[i].days & plan[j].days == 0);
                assert(x & y == 0 && x & z != 0 && (z == 1 || z == 2 || z == 4 || z == 8 || z == 16 || z == 32 || z == 64)
                    ==> y & z == 0) by (bit_vector);
            }
            lemma_named_day(before.week@, plan, n, i, d);
        }
        if forall|i: int| 0 <= i < n ==> (#[trigger] plan[i]).days & day_bit(d) == 0 {
            law_other_days_are_left_alone(before.week@, plan, n, d);
        }
    }
}

/// A refused command changes nothing.
pub proof fn law_a_refusal_changes_nothing(
    p: Power,
    week: Seq<Seq<ChargingTargetStruct>>,
    features: u32,
    per_day: nat,
    command: CommandId,
    data: Option<Seq<u8>>,
    tag: Tag,
    hw: Hardware,
    agreed: bool,
)
    ensures
        ({
            let o = commanded(p, week, features, per_day, command, data, tag, hw, agreed);
            o.answer is Err ==> o.power == p && o.week == week && o.event is None
        }),
{
}

/// Without a clock no window runs out: only one that was closed is closed.
pub proof fn law_without_a_clock_nothing_expires(until: Option<u32>)
    ensures
        open_at(until, None) == (until != Some(0u32)),
{
}

/// A window that was opened until a moment is open before it and closed from it on.
pub proof fn law_a_window_ends_by_the_clock(end: u32, now: u32)
    requires
        end != 0,
    ensures
        open_at(Some(end), Some(now)) == (now < end),
{
}

/// A window that runs out leaves what the other one still allows.
pub proof fn law_one_window_outlives_the_other(p: Power, features: u32, utc: Option<u32>)
    requires
        !(p.supply is DisabledDiagnostics) && !(p.supply is DisabledError),
        features & V2_X != 0,
    ensures
        !open_at(p.charging_until, utc) && open_at(p.discharging_until, utc) ==> resupplied(p, features, utc).supply
            is DischargingEnabled,
        open_at(p.charging_until, utc) && !open_at(p.discharging_until, utc) ==> resupplied(p, features, utc).supply
            is ChargingEnabled,
        open_at(p.charging_until, utc) && open_at(p.discharging_until, utc) ==> resupplied(p, features, utc).supply
            is Enabled,
{
}

/// Equipment with a fault, or in diagnostics, is not enabled, and is not told to be.
pub proof fn law_a_fault_keeps_the_supply_off(
    p: Power,
    week: Seq<Seq<ChargingTargetStruct>>,
    features: u32,
    per_day: nat,
    command: CommandId,
    data: Option<Seq<u8>>,
    tag: Tag,
    hw: Hardware,
    agreed: bool,
)
    requires
        refuses(p, hw.fault),
        command == ENABLE_CHARGING || command == ENABLE_DISCHARGING,
    ensures
        ({
            let o = commanded(p, week, features, per_day, command, data, tag, hw, agreed);
            o.answer is Err && o.power == p && o.event is None
        }),
        call_of(p, command, data, per_day, hw.fault, agreed) is None,
{
}

/// Whether a target is one that a command can bring: a minute of a day, at most full, and nothing taken away.
pub open spec fn sound(t: ChargingTargetStruct) -> bool {
    &&& t.target_time_minutes_past_midnight <= 1439
    &&& t.target_so_c matches Some(soc) ==> soc <= 100
    &&& t.added_energy matches Some(e) ==> e >= 0
}

spec fn target_pieces(t: ChargingTargetStruct) -> Seq<Seq<u8>> {
    seq![tlv::unsigned_bytes(Tag::Context(0), t.target_time_minutes_past_midnight as u64)] + (match t.target_so_c {
        Some(soc) => seq![tlv::unsigned_bytes(Tag::Context(1), soc as u64)],
        None => Seq::empty(),
    }) + (match t.added_energy {
        Some(e) => seq![tlv::signed_bytes(Tag::Context(2), e)],
        None => Seq::empty(),
    })
}

spec fn target_elements(t: ChargingTargetStruct) -> Seq<Element> {
    seq![Element { context: Some(0u8), value: Value::Unsigned(t.target_time_minutes_past_midnight as u64) }] + (
    match t.target_so_c {
        Some(soc) => seq![Element { context: Some(1u8), value: Value::Unsigned(soc as u64) }],
        None => Seq::empty(),
    }) + (match t.added_energy {
        Some(e) => seq![Element { context: Some(2u8), value: Value::Signed(e) }],
        None => Seq::empty(),
    })
}

proof fn lemma_target_content(t: ChargingTargetStruct)
    ensures
        target_bytes()(t) == tlv::structure_bytes(Tag::Anonymous, tlv::concat(target_pieces(t), tlv::itself())),
{
    let p = target_pieces(t);
    let f = tlv::itself();
    reveal_with_fuel(tlv::concat, 4);
    let a = tlv::unsigned_bytes(Tag::Context(0), t.target_time_minutes_past_midnight as u64);
    match (t.target_so_c, t.added_energy) {
        (None, None) => {
            assert(p =~= seq![a]);
            assert(p.drop_last() =~= Seq::empty());
            assert(tlv::concat(p, f) =~= a + Seq::<u8>::empty() + Seq::<u8>::empty());
        },
        (Some(soc), None) => {
            let x = tlv::unsigned_bytes(Tag::Context(1), soc as u64);
            assert(p =~= seq![a, x]);
            assert(p.drop_last() =~= seq![a]);
            assert(p.drop_last().drop_last() =~= Seq::empty());
            assert(tlv::concat(p, f) =~= a + x + Seq::<u8>::empty());
        },
        (None, Some(e)) => {
            let y = tlv::signed_bytes(Tag::Context(2), e);
            assert(p =~= seq![a, y]);
            assert(p.drop_last() =~= seq![a]);
            assert(p.drop_last().drop_last() =~= Seq::empty());
            assert(tlv::concat(p, f) =~= a + Seq::<u8>::empty() + y);
        },
        (Some(soc), Some(e)) => {
            let x = tlv::unsigned_bytes(Tag::Context(1), soc as u64);
            let y = tlv::signed_bytes(Tag::Context(2), e);
            assert(p =~= seq![a, x, y]);
            assert(p.drop_last() =~= seq![a, x]);
            assert(p.drop_last().drop_last() =~= seq![a]);
            assert(p.drop_last().drop_last().drop_last() =~= Seq::empty());
            assert(tlv::concat(p, f) =~= a + x + y);
        },
    }
}

/// The elements of a target meet its schema and give the target back.
proof fn lemma_target_elements(t: ChargingTargetStruct)
    requires
        sound(t),
    ensures
        ({
            let items = target_elements(t);
            &&& fields::check(items, true, target_schema()) is None
            &&& fields::num16(items, 0) == Some(t.target_time_minutes_past_midnight)
            &&& fields::num8(items, 1) == t.target_so_c
            &&& fields::int64(items, 2) == t.added_energy
        }),
{
    let items = target_elements(t);
    bounded::lemma_first(items, fields::tagged(0));
    bounded::lemma_first(items, fields::tagged(1));
    bounded::lemma_first(items, fields::tagged(2));
    assert(fields::tagged(0)(items[0]));
    assert(!fields::tagged(1)(items[0]) && !fields::tagged(2)(items[0]));
    if items.len() > 1 {
        assert(t.target_so_c is Some ==> fields::tagged(1)(items[1]) && !fields::tagged(2)(items[1]) && !fields::tagged(0)(items[1]));
        assert(t.target_so_c is None ==> fields::tagged(2)(items[1]) && !fields::tagged(1)(items[1]) && !fields::tagged(0)(items[1]));
    }
    if items.len() > 2 {
        assert(fields::tagged(2)(items[2]) && !fields::tagged(1)(items[2]) && !fields::tagged(0)(items[2]));
    }
    reveal_with_fuel(fields::field_of, 4);
    reveal_with_fuel(fields::first_fault, 4);
    reveal_with_fuel(fields::all_there, 4);
}

/// A target that was given out is the same target where it is brought, wherever it stands in data that memory
/// can hold.
pub proof fn law_a_target_round_trip(b: Seq<u8>, pos: int, t: ChargingTargetStruct)
    requires
        tlv::stands(b, pos, target_bytes()(t)),
        b.len() <= usize::MAX,
        sound(t),
    ensures
        tlv::whole(b, pos, target_bytes()(t)),
        tlv::element_at(b, pos) matches Some((e, _)) && ChargingTargetStruct::of(b, e) == Ok::<ChargingTargetStruct, Status>(t),
{
    let pieces = target_pieces(t);
    lemma_target_content(t);
    assert forall|i: int, p: int| 0 <= i < pieces.len() && #[trigger] tlv::stands(b, p, pieces[i]) implies tlv::whole(
        b,
        p,
        pieces[i],
    ) && (tlv::element_at(b, p) matches Some((e, _)) && e == target_elements(t)[i]) by {
        if i == 0 {
            tlv::lemma_whole_unsigned(b, p, Tag::Context(0), t.target_time_minutes_past_midnight as u64);
        } else if i == 1 && t.target_so_c is Some {
            tlv::lemma_whole_unsigned(b, p, Tag::Context(1), t.target_so_c->Some_0 as u64);
        } else {
            tlv::lemma_whole_signed(b, p, Tag::Context(2), t.added_energy->Some_0);
        }
    }
    tlv::lemma_structure_of_known(b, pos, Tag::Anonymous, pieces, target_elements(t));
    lemma_target_elements(t);
}

/// A day with targets that was given out is a schedule of that day and of its targets where it is brought.
proof fn lemma_day_back(b: Seq<u8>, pos: int, week: Seq<Seq<ChargingTargetStruct>>, d: int, before: Seq<Schedule>, per_day: nat)
    requires
        0 <= d < 7,
        week[d].len() > 0,
        week[d].len() <= per_day,
        forall|i: int| 0 <= i < week[d].len() ==> sound(#[trigger] week[d][i]),
        tlv::stands(b, pos, day_bytes(week, d)),
        b.len() <= usize::MAX,
    ensures
        tlv::whole(b, pos, day_bytes(week, d)),
        before.len() < 7 && day_bit(d) & days_of(before) == 0 ==> (tlv::element_at(b, pos) matches Some((e, _)) && schedule_at(
            b,
            e,
            before,
            per_day,
        ) == Ok::<Schedule, Status>(Schedule { days: day_bit(d), targets: week[d] })),
{
    let x = tlv::unsigned_bytes(Tag::Context(0), day_bit(d) as u64);
    let y = tlv::array_bytes(Tag::Context(1), tlv::concat(week[d], target_bytes()));
    let at = pos + tlv::header(Tag::Anonymous, 0x15).len();
    let f = target_bytes();
    assert(tlv::structure_bytes(Tag::Anonymous, x + y) =~= tlv::header(Tag::Anonymous, 0x15) + (x + y + seq![0x18u8]));
    tlv::lemma_stands_both(b, pos, tlv::header(Tag::Anonymous, 0x15), x + y + seq![0x18u8]);
    tlv::lemma_stands_both(b, at, x + y, seq![0x18u8]);
    tlv::lemma_stands_both(b, at, x, y);
    tlv::lemma_whole_unsigned(b, at, Tag::Context(0), day_bit(d) as u64);
    tlv::law_unsigned_round_trip(b, at, Tag::Context(0), day_bit(d) as u64);
    assert forall|i: int, p: int| 0 <= i < week[d].len() && #[trigger] tlv::stands(b, p, f(week[d][i])) implies tlv::whole(
        b,
        p,
        f(week[d][i]),
    ) && (tlv::element_at(b, p) matches Some((e, _)) && ChargingTargetStruct::of(b, e) == Ok::<ChargingTargetStruct, Status>(
        week[d][i],
    )) by {
        law_a_target_round_trip(b, p, week[d][i]);
    }
    let second = at + x.len();
    tlv::lemma_array_of_items(b, second, Tag::Context(1), week[d], f);
    let inner = second + tlv::header(Tag::Context(1), 0x15).len();
    fields::lemma_list_of_back(b, inner, week[d], f, per_day, Status::ResourceExhausted);
    tlv::lemma_balanced_both(b, at, x, y);
    tlv::law_container_round_trip(b, pos, Tag::Anonymous, ContainerKind::Structure, x + y);
    let e0 = Element { context: Some(0u8), value: Value::Unsigned(day_bit(d) as u64) };
    let (e1, next) = tlv::element_at(b, second)->Some_0;
    tlv::lemma_scan_end(b, second + y.len());
    tlv::lemma_scan_step(b, second, e1, next, second + y.len());
    tlv::lemma_scan_step(b, at, e0, second, second);
    let items = tlv::scan(b, at).items;
    assert(items =~= seq![e0, e1]);
    bounded::lemma_first(items, fields::tagged(0));
    bounded::lemma_first(items, fields::tagged(1));
    assert(fields::tagged(0)(items[0]) && fields::tagged(1)(items[1]));
    assert(!fields::tagged(1)(items[0]) && !fields::tagged(0)(items[1]));
    reveal_with_fuel(fields::field_of, 3);
    reveal_with_fuel(fields::first_fault, 3);
    reveal_with_fuel(fields::all_there, 3);
    assert(fields::check(items, true, schedule_schema()) is None);
}

/// The days among the first `n` that have targets.
pub open spec fn busy_days(week: Seq<Seq<ChargingTargetStruct>>, n: int) -> Seq<int>
    decreases n,
{
    if n <= 0 {
        Seq::empty()
    } else if week[n - 1].len() == 0 {
        busy_days(week, n - 1)
    } else {
        busy_days(week, n - 1).push(n - 1)
    }
}

spec fn day_of(week: Seq<Seq<ChargingTargetStruct>>) -> spec_fn(int) -> Seq<u8> {
    |d: int| day_bytes(week, d)
}

proof fn lemma_busy_days(week: Seq<Seq<ChargingTargetStruct>>, n: int)
    requires
        0 <= n,
    ensures
        days_bytes(week, n) == tlv::concat(busy_days(week, n), day_of(week)),
        busy_days(week, n).len() <= n,
        forall|i: int| 0 <= i < busy_days(week, n).len() ==> 0 <= #[trigger] busy_days(week, n)[i] < n && week[busy_days(week, n)[i]].len()
            > 0,
        forall|i: int, j: int|
            0 <= i < j < busy_days(week, n).len() ==> #[trigger] busy_days(week, n)[i] < #[trigger] busy_days(week, n)[j],
        forall|d: int| 0 <= d < n && week[d].len() > 0 ==> #[trigger] busy_days(week, n).contains(d),
    decreases n,
{
    if n > 0 {
        lemma_busy_days(week, n - 1);
        let had = busy_days(week, n - 1);
        if week[n - 1].len() == 0 {
            assert(days_bytes(week, n - 1) + Seq::<u8>::empty() =~= days_bytes(week, n - 1));
        } else {
            tlv::lemma_concat_push(had, n - 1, day_of(week));
            assert forall|d: int| 0 <= d < n && week[d].len() > 0 implies #[trigger] busy_days(week, n).contains(d) by {
                if d == n - 1 {
                    assert(busy_days(week, n)[had.len() as int] == d);
                } else {
                    assert(had.contains(d));
                    let i = choose|i: int| 0 <= i < had.len() && had[i] == d;
                    assert(busy_days(week, n)[i] == d);
                }
            }
        }
    }
}

/// The schedules of days: each with the bit of its day and with its targets.
pub open spec fn schedules_of(week: Seq<Seq<ChargingTargetStruct>>, days: Seq<int>) -> Seq<Schedule> {
    days.map_values(|d: int| Schedule { days: day_bit(d), targets: week[d] })
}

/// The bits of days stay below that of any later day.
proof fn lemma_days_below(week: Seq<Seq<ChargingTargetStruct>>, days: Seq<int>, d: int)
    requires
        0 <= d < 7,
        forall|i: int| 0 <= i < days.len() ==> 0 <= #[trigger] days[i] < d,
        forall|i: int, j: int| 0 <= i < j < days.len() ==> #[trigger] days[i] < #[trigger] days[j],
    ensures
        days_of(schedules_of(week, days)) < day_bit(d),
        day_bit(d) & days_of(schedules_of(week, days)) == 0,
    decreases days.len(),
{
    let plan = schedules_of(week, days);
    let bit = day_bit(d);
    if days.len() > 0 {
        let last = days.last();
        let had = days.drop_last();
        assert(plan.drop_last() =~= schedules_of(week, had));
        assert(plan.last().days == day_bit(last));
        assert forall|i: int| 0 <= i < had.len() implies 0 <= #[trigger] had[i] < last by {
            assert(days[i] < days[days.len() - 1]);
        }
        lemma_days_below(week, had, last);
        let (x, y) = (days_of(schedules_of(week, had)), day_bit(last));
        assert((y == 1 || y == 2 || y == 4 || y == 8 || y == 16 || y == 32 || y == 64) && x < y && 2 * y <= bit ==> (x | y) < bit)
            by (bit_vector);
    }
    let z = days_of(plan);
    assert((bit == 1 || bit == 2 || bit == 4 || bit == 8 || bit == 16 || bit == 32 || bit == 64) && z < bit ==> bit & z == 0)
        by (bit_vector);
}

/// The schedules that were given out are planned as they were where they are brought.
proof fn lemma_plan_back(b: Seq<u8>, at: int, week: Seq<Seq<ChargingTargetStruct>>, items: Seq<Element>, n: int, per_day: nat)
    requires
        week.len() == 7,
        forall|d: int| 0 <= d < 7 ==> (#[trigger] week[d]).len() <= per_day,
        forall|d: int, i: int| 0 <= d < 7 && 0 <= i < week[d].len() ==> sound(#[trigger] week[d][i]),
        b.len() <= usize::MAX,
        tlv::stands(b, at, tlv::concat(busy_days(week, 7), day_of(week))),
        items == tlv::concat_elements(b, at, busy_days(week, 7), day_of(week)),
        0 <= n <= busy_days(week, 7).len(),
    ensures
        planned(b, items, n, per_day) == Ok::<Seq<Schedule>, Status>(schedules_of(week, busy_days(week, 7).take(n))),
    decreases n,
{
    let days = busy_days(week, 7);
    lemma_busy_days(week, 7);
    if n > 0 {
        lemma_plan_back(b, at, week, items, n - 1, per_day);
        let d = days[n - 1];
        let had = days.take(n - 1);
        assert forall|i: int| 0 <= i < had.len() implies 0 <= #[trigger] had[i] < d by {
            assert(days[i] < days[n - 1]);
        }
        assert forall|i: int, j: int| 0 <= i < j < had.len() implies #[trigger] had[i] < #[trigger] had[j] by {
            assert(days[i] < days[j]);
        }
        lemma_days_below(week, had, d);
        tlv::lemma_concat_element(b, at, days, day_of(week), n - 1);
        lemma_day_back(b, at + tlv::concat(had, day_of(week)).len(), week, d, schedules_of(week, had), per_day);
        assert(schedules_of(week, days.take(n)) =~= schedules_of(week, had).push(
            Schedule { days: day_bit(d), targets: week[d] },
        ));
    } else {
        assert(schedules_of(week, days.take(0)) =~= Seq::empty());
    }
}

/// A command of one list is read as that list.
proof fn lemma_one_list(b: Seq<u8>, tag: Tag, days: Seq<int>, f: spec_fn(int) -> Seq<u8>)
    requires
        b == tlv::structure_bytes(tag, tlv::array_bytes(Tag::Context(0), tlv::concat(days, f))),
        b.len() <= usize::MAX,
        forall|i: int, p: int| 0 <= i < days.len() && #[trigger] tlv::stands(b, p, f(days[i])) ==> tlv::whole(b, p, f(days[i])),
    ensures
        ({
            let inner = tlv::header(tag, 0x15).len() + tlv::header(Tag::Context(0), 0x15).len();
            &&& fields::decode(b, targets_schema()) is Ok
            &&& fields::container(fields::decode(b, targets_schema())->Ok_0, 0) == Some(inner as usize)
            &&& inner as usize == inner
            &&& tlv::stands(b, inner as int, tlv::concat(days, f))
            &&& tlv::scan(b, inner as int).items == tlv::concat_elements(b, inner as int, days, f)
        }),
{
    let x = tlv::array_bytes(Tag::Context(0), tlv::concat(days, f));
    let at = tlv::header(tag, 0x15).len() as int;
    tlv::lemma_stands_whole(b);
    assert(b =~= tlv::header(tag, 0x15) + (x + seq![0x18u8]));
    tlv::lemma_stands_both(b, 0, tlv::header(tag, 0x15), x + seq![0x18u8]);
    tlv::lemma_stands_both(b, at, x, seq![0x18u8]);
    tlv::lemma_array_of_items(b, at, Tag::Context(0), days, f);
    tlv::law_container_round_trip(b, 0, tag, ContainerKind::Structure, x);
    let (e, next) = tlv::element_at(b, at)->Some_0;
    tlv::lemma_scan_end(b, at + x.len());
    tlv::lemma_scan_step(b, at, e, next, at + x.len());
    let items = tlv::scan(b, at).items;
    assert(items =~= seq![e]);
    lemma_list_alone(items, e);
}

proof fn lemma_list_alone(items: Seq<Element>, e: Element)
    requires
        items == seq![e],
        e.context == Some(0u8),
        e.is_array(),
    ensures
        fields::check(items, true, targets_schema()) is None,
        fields::container(items, 0) == Some(e.content() as usize),
{
    bounded::lemma_first(items, fields::tagged(0));
    assert(fields::tagged(0)(items[0]));
    reveal_with_fuel(fields::field_of, 2);
    reveal_with_fuel(fields::first_fault, 2);
    reveal_with_fuel(fields::all_there, 2);
}

/// The answer to `GetTargets`, brought as it is, is a plan of the days that have targets.
proof fn lemma_targets_back(week: Seq<Seq<ChargingTargetStruct>>, tag: Tag, per_day: nat)
    requires
        week.len() == 7,
        forall|d: int| 0 <= d < 7 ==> (#[trigger] week[d]).len() <= per_day,
        forall|d: int, i: int| 0 <= d < 7 && 0 <= i < week[d].len() ==> sound(#[trigger] week[d][i]),
        targets_response(week, tag).len() <= usize::MAX,
    ensures
        targets_request(Some(targets_response(week, tag)), per_day) == Ok::<Seq<Schedule>, Status>(
            schedules_of(week, busy_days(week, 7)),
        ),
{
    let b = targets_response(week, tag);
    let days = busy_days(week, 7);
    let f = day_of(week);
    lemma_busy_days(week, 7);
    assert forall|i: int, p: int| 0 <= i < days.len() && #[trigger] tlv::stands(b, p, f(days[i])) implies tlv::whole(
        b,
        p,
        f(days[i]),
    ) by {
        lemma_day_back(b, p, week, days[i], Seq::empty(), per_day);
    }
    lemma_one_list(b, tag, days, f);
    let inner = (tlv::header(tag, 0x15).len() + tlv::header(Tag::Context(0), 0x15).len()) as int;
    tlv::lemma_concat_elements_len(b, inner, days, f);
    lemma_plan_back(b, inner, week, tlv::scan(b, inner).items, days.len() as int, per_day);
    assert(days.take(days.len() as int) =~= days);
}

/// The schedules of the days of a week that have targets: one for each such day, and none for another.
proof fn lemma_one_schedule_each(week: Seq<Seq<ChargingTargetStruct>>, plan: Seq<Schedule>)
    requires
        plan == schedules_of(week, busy_days(week, 7)),
    ensures
        one_schedule_each(week, plan),
{
    let days = busy_days(week, 7);
    lemma_busy_days(week, 7);
    assert forall|d: int| 0 <= d < 7 && (#[trigger] week[d]).len() > 0 implies one_schedule_of(week, plan, d) by {
        assert(days.contains(d));
        let i = choose|i: int| 0 <= i < days.len() && days[i] == d;
        assert(plan[i].days == day_bit(d));
        assert forall|j: int| 0 <= j < plan.len() && j != i implies (#[trigger] plan[j]).days != 1u8 << d as u8 by {
            assert(plan[j].days == day_bit(days[j]));
            lemma_bit(d);
            lemma_bit(days[j]);
            if j < i {
                assert(days[j] < days[i]);
            } else {
                assert(days[i] < days[j]);
            }
        }
        lemma_bit(d);
    }
    assert forall|i: int| 0 <= i < plan.len() implies exists|d: int|
        0 <= d < 7 && (#[trigger] plan[i]).days == 1u8 << d as u8 && (#[trigger] week[d]).len() > 0 by {
        assert(week[days[i]].len() > 0);
        assert(plan[i].days == day_bit(days[i]));
        lemma_bit(days[i]);
    }
}

proof fn lemma_bit(d: int)
    requires
        0 <= d < 7,
    ensures
        day_bit(d) == 1u8 << d as u8,
{
    assert(1u8 << 0u8 == 1 && 1u8 << 1u8 == 2 && 1u8 << 2u8 == 4 && 1u8 << 3u8 == 8 && 1u8 << 4u8 == 16 && 1u8 << 5u8 == 32 && 1u8
        << 6u8 == 64) by (bit_vector);
}

/// Whether a plan has exactly one schedule of a day alone, and with exactly its targets.
pub open spec fn one_schedule_of(week: Seq<Seq<ChargingTargetStruct>>, plan: Seq<Schedule>, d: int) -> bool {
    exists|i: int|
        {
            &&& 0 <= i < plan.len()
            &&& (#[trigger] plan[i]).days == 1u8 << d as u8
            &&& plan[i].targets == week[d]
            &&& forall|j: int| 0 <= j < plan.len() && j != i ==> (#[trigger] plan[j]).days != 1u8 << d as u8
        }
}

/// Whether a plan has exactly one schedule for each day of a week that has targets, of that day alone and with exactly
/// its targets, and none for another.
pub open spec fn one_schedule_each(week: Seq<Seq<ChargingTargetStruct>>, plan: Seq<Schedule>) -> bool {
    &&& forall|d: int| 0 <= d < 7 && (#[trigger] week[d]).len() > 0 ==> one_schedule_of(week, plan, d)
    &&& forall|i: int|
        0 <= i < plan.len() ==> exists|d: int|
            0 <= d < 7 && (#[trigger] plan[i]).days == 1u8 << d as u8 && (#[trigger] week[d]).len() > 0
}

/// Taking the schedules of a week over into one without targets gives the week.
proof fn lemma_whole_week(week: Seq<Seq<ChargingTargetStruct>>, plan: Seq<Schedule>)
    requires
        week.len() == 7,
        plan == schedules_of(week, busy_days(week, 7)),
    ensures
        taken_over(Seq::new(7, |d: int| Seq::<ChargingTargetStruct>::empty()), plan, plan.len() as int) == week,
{
    let days = busy_days(week, 7);
    lemma_busy_days(week, 7);
    let empty = Seq::new(7, |d: int| Seq::<ChargingTargetStruct>::empty());
    assert forall|d: int| 0 <= d < 7 implies taken_over(empty, plan, plan.len() as int)[d] == week[d] by {
        let bit = day_bit(d);
        assert forall|j: int| 0 <= j < plan.len() && days[j] != d implies (#[trigger] plan[j]).days & day_bit(d) == 0 by {
            let y = day_bit(days[j]);
            assert(plan[j].days == y);
            assert((bit == 1 || bit == 2 || bit == 4 || bit == 8 || bit == 16 || bit == 32 || bit == 64) && (y == 1 || y == 2 || y
                == 4 || y == 8 || y == 16 || y == 32 || y == 64) && y != bit ==> y & bit == 0) by (bit_vector);
        }
        if week[d].len() > 0 {
            assert(days.contains(d));
            let i = choose|i: int| 0 <= i < days.len() && days[i] == d;
            assert(plan[i].days == bit && plan[i].targets == week[d]);
            assert((bit == 1 || bit == 2 || bit == 4 || bit == 8 || bit == 16 || bit == 32 || bit == 64) ==> bit & bit != 0)
                by (bit_vector);
            assert forall|j: int| i < j < plan.len() implies (#[trigger] plan[j]).days & day_bit(d) == 0 by {
                assert(days[i] < days[j]);
            }
            lemma_named_day(empty, plan, plan.len() as int, i, d);
        } else {
            assert forall|j: int| 0 <= j < plan.len() implies (#[trigger] plan[j]).days & day_bit(d) == 0 by {
                assert(week[days[j]].len() > 0);
            }
            law_other_days_are_left_alone(empty, plan, plan.len() as int, d);
            assert(week[d] =~= Seq::empty());
        }
    }
    lemma_taken_len(empty, plan, plan.len() as int);
    assert(taken_over(empty, plan, plan.len() as int) =~= week);
}

/// `GetTargets` gives every target back. Its answer, read as the schedules of a `SetTargets`, has for each of the
/// seven days that has targets exactly one schedule, of that day alone and with exactly its targets in their
/// order, and no schedule for any other day; and taking those schedules over into a week without targets gives the
/// week that was stored. It changes nothing. This holds of targets that a command can bring, in data that memory can
/// hold.
pub proof fn law_every_target_is_given_back<H: EvseHooks, const T: usize>(
    before: EnergyEvse<H, T>,
    after: EnergyEvse<H, T>,
    resolved: ResolvedCommand,
    data: Option<Seq<u8>>,
    ctx: InteractionContext,
    tag: Tag,
    a: InvokeAnswer,
    body: Seq<u8>,
    plan: Seq<Schedule>,
)
    requires
        resolved.command == 0x06,
        EnergyEvse::<H, T>::invokes(&before, &after, resolved, data, ctx, tag, a),
        forall|d: int| 0 <= d < 7 ==> (#[trigger] before.week@[d]).len() <= T,
        forall|d: int, i: int| 0 <= d < 7 && 0 <= i < before.week@[d].len() ==> sound(#[trigger] before.week@[d][i]),
        a matches Ok((_, said)) ==> said == body,
        body.len() <= usize::MAX,
        targets_request(Some(body), T as nat) matches Ok(read) ==> read == plan,
    ensures
        a == Ok::<(Option<CommandId>, Seq<u8>), StatusIb>((Some(0x00), body)),
        after.week@ == before.week@ && after.power == before.power && after.hooks == before.hooks && after.events@ == before.events@,
        targets_request(Some(body), T as nat) == Ok::<Seq<Schedule>, Status>(plan),
        one_schedule_each(before.week@, plan),
        taken_over(Seq::new(7, |d: int| Seq::<ChargingTargetStruct>::empty()), plan, plan.len() as int) == before.week@,
{
    law_a_week_has_seven_days(before.week);
    assert(body == targets_response(before.week@, tag));
    lemma_targets_back(before.week@, tag, T as nat);
    lemma_one_schedule_each(before.week@, plan);
    lemma_whole_week(before.week@, plan);
}

proof fn lemma_taken_len(week: Seq<Seq<ChargingTargetStruct>>, plan: Seq<Schedule>, n: int)
    requires
        week.len() == 7,
    ensures
        taken_over(week, plan, n).len() == 7,
    decreases n,
{
    if n > 0 {
        lemma_taken_len(week, plan, n - 1);
    }
}

/// Whether a window until a moment is open by a clock: without an end it always is, with a zero end it never is,
/// and with another end it is unless the clock says that it is over.
pub open spec fn lasts(until: Option<u32>, utc: Option<u32>) -> bool {
    until is None || (until->Some_0 != 0 && (utc is None || utc->Some_0 < until->Some_0))
}

/// `EnableCharging` is refused where the equipment has a fault or runs diagnostics, and where its currents are no
/// window; else the equipment is asked for exactly that window, and where it agrees, the currents and the end are
/// those that were asked for and the supply follows from the two windows. Where it does not, nothing changes.
pub proof fn law_charging_is_enabled_as_asked<H: EvseHooks, const T: usize>(
    before: EnergyEvse<H, T>,
    after: EnergyEvse<H, T>,
    resolved: ResolvedCommand,
    b: Seq<u8>,
    items: Seq<Element>,
    minimum: i64,
    maximum: i64,
    ctx: InteractionContext,
    tag: Tag,
    a: InvokeAnswer,
)
    requires
        resolved.command == 0x02,
        EnergyEvse::<H, T>::invokes(&before, &after, resolved, Some(b), ctx, tag, a),
        fields::decode(
            b,
            seq![
                Field(0, Kind::U32, Need::Nullable),
                Field(1, Kind::I64, Need::Required),
                Field(2, Kind::I64, Need::Required),
            ],
        ) == Ok::<Seq<Element>, Status>(items),
        fields::int64(items, 1) == Some(minimum),
        fields::int64(items, 2) == Some(maximum),
    ensures
        after.week@ == before.week@,
        after.events@ == before.events@,
        a is Err ==> after.power == before.power,
        exists|hw: Hardware|
            {
                let until = fields::num32(items, 0);
                &&& #[trigger] before.hooks.says(hw)
                &&& if hw.fault != FaultStateEnum::NoError || before.power.supply is DisabledDiagnostics {
                    a == im::refused(Status::Failure) && after.hooks == before.hooks
                } else if !(0 <= minimum <= maximum) {
                    a == im::refused(Status::ConstraintError) && after.hooks == before.hooks
                } else {
                    &&& after.hooks.calls().len() == before.hooks.calls().len() + 1
                    &&& after.hooks.calls().last() matches Call::EnableCharging(low, high, agreed) && low == minimum && high
                        == maximum && a == (if agreed { im::done() } else { im::refused(Status::Failure) })
                    &&& a is Ok ==> {
                        &&& after.power.minimum_charge_current == minimum
                        &&& after.power.maximum_charge_current == maximum
                        &&& after.power.charging_until == until
                        &&& after.power.discharging_until == before.power.discharging_until
                        &&& after.power.maximum_discharge_current == before.power.maximum_discharge_current
                        &&& !(before.power.supply is DisabledError) ==> after.power.supply == (match (
                            lasts(until, hw.utc),
                            before.feature_map & 0x10 != 0 && lasts(before.power.discharging_until, hw.utc),
                        ) {
                            (true, true) => SupplyStateEnum::Enabled,
                            (true, false) => SupplyStateEnum::ChargingEnabled,
                            (false, true) => SupplyStateEnum::DischargingEnabled,
                            (false, false) => SupplyStateEnum::Disabled,
                        })
                    }
                }
            },
{
    assert(charging_schema() =~= seq![
        Field(0, Kind::U32, Need::Nullable),
        Field(1, Kind::I64, Need::Required),
        Field(2, Kind::I64, Need::Required),
    ]);
}

/// `EnableDischarging` is refused where the equipment has a fault or runs diagnostics, and where its current is
/// below zero; else the equipment is asked for exactly that current, and where it agrees, the current and the end
/// are those that were asked for and the supply follows from the two windows.
pub proof fn law_discharging_is_enabled_as_asked<H: EvseHooks, const T: usize>(
    before: EnergyEvse<H, T>,
    after: EnergyEvse<H, T>,
    resolved: ResolvedCommand,
    b: Seq<u8>,
    items: Seq<Element>,
    maximum: i64,
    ctx: InteractionContext,
    tag: Tag,
    a: InvokeAnswer,
)
    requires
        resolved.command == 0x03,
        EnergyEvse::<H, T>::invokes(&before, &after, resolved, Some(b), ctx, tag, a),
        fields::decode(b, seq![Field(0, Kind::U32, Need::Nullable), Field(1, Kind::I64, Need::Required)]) == Ok::<
            Seq<Element>,
            Status,
        >(items),
        fields::int64(items, 1) == Some(maximum),
    ensures
        after.week@ == before.week@,
        after.events@ == before.events@,
        a is Err ==> after.power == before.power,
        exists|hw: Hardware|
            {
                let until = fields::num32(items, 0);
                &&& #[trigger] before.hooks.says(hw)
                &&& if hw.fault != FaultStateEnum::NoError || before.power.supply is DisabledDiagnostics {
                    a == im::refused(Status::Failure) && after.hooks == before.hooks
                } else if maximum < 0 {
                    a == im::refused(Status::ConstraintError) && after.hooks == before.hooks
                } else {
                    &&& after.hooks.calls().len() == before.hooks.calls().len() + 1
                    &&& after.hooks.calls().last() matches Call::EnableDischarging(high, agreed) && high == maximum && a == (
                    if agreed { im::done() } else { im::refused(Status::Failure) })
                    &&& a is Ok ==> {
                        &&& after.power.maximum_discharge_current == maximum
                        &&& after.power.discharging_until == until
                        &&& after.power.charging_until == before.power.charging_until
                        &&& after.power.minimum_charge_current == before.power.minimum_charge_current
                        &&& after.power.maximum_charge_current == before.power.maximum_charge_current
                        &&& !(before.power.supply is DisabledError) ==> after.power.supply == (match (
                            lasts(before.power.charging_until, hw.utc),
                            before.feature_map & 0x10 != 0 && lasts(until, hw.utc),
                        ) {
                            (true, true) => SupplyStateEnum::Enabled,
                            (true, false) => SupplyStateEnum::ChargingEnabled,
                            (false, true) => SupplyStateEnum::DischargingEnabled,
                            (false, false) => SupplyStateEnum::Disabled,
                        })
                    }
                }
            },
{
    assert(discharging_schema() =~= seq![Field(0, Kind::U32, Need::Nullable), Field(1, Kind::I64, Need::Required)]);
}

/// `Disable` asks the equipment to stop, and where that agrees both windows are closed and nothing is supplied, and a
/// current that flowed is on record as stopped by the equipment; `StartDiagnostics` asks it to run them exactly where it
/// is disabled and without a fault; `ClearTargets` leaves no day a target and the power alone.
pub proof fn law_stopping_and_clearing<H: EvseHooks, const T: usize>(
    before: EnergyEvse<H, T>,
    after: EnergyEvse<H, T>,
    resolved: ResolvedCommand,
    data: Option<Seq<u8>>,
    ctx: InteractionContext,
    tag: Tag,
    a: InvokeAnswer,
)
    requires
        EnergyEvse::<H, T>::invokes(&before, &after, resolved, data, ctx, tag, a),
    ensures
        resolved.command == 0x01 ==> {
            &&& after.week@ == before.week@
            &&& after.hooks.calls().len() == before.hooks.calls().len() + 1
            &&& after.hooks.calls().last() matches Call::Disable(agreed) && a == (if agreed {
                im::done()
            } else {
                im::refused(Status::Failure)
            })
            &&& a is Err ==> after.power == before.power && after.events@ == before.events@
            &&& a is Ok ==> {
                &&& after.power.charging_until == Some(0u32) && after.power.discharging_until == Some(0u32)
                &&& after.power.supply is Disabled || (after.power.supply is DisabledDiagnostics && before.power.supply
                    is DisabledDiagnostics)
                &&& before.power.supply is DisabledDiagnostics ==> after.power.supply is DisabledDiagnostics
                &&& exists|hw: Hardware| #[trigger]
                    before.hooks.says(hw) && (before.events@.len() < 8 ==> after.events@ == (if hw.state == Some(
                        StateEnum::PluggedInCharging,
                    ) || hw.state == Some(StateEnum::PluggedInDischarging) {
                        before.events@.push(Event::EnergyTransferStopped(EnergyTransferStoppedReasonEnum::EVSEStopped))
                    } else {
                        before.events@
                    }))
            }
        },
        resolved.command == 0x04 ==> {
            &&& after.week@ == before.week@
            &&& after.events@ == before.events@
            &&& a is Err ==> after.power == before.power && a == im::refused(Status::Failure)
            &&& a is Ok ==> after.power == (Power { supply: SupplyStateEnum::DisabledDiagnostics, ..before.power })
            &&& exists|hw: Hardware| #[trigger]
                before.hooks.says(hw) && if before.power.supply is Disabled && hw.fault == FaultStateEnum::NoError {
                    &&& after.hooks.calls().len() == before.hooks.calls().len() + 1
                    &&& after.hooks.calls().last() matches Call::StartDiagnostics(agreed) && agreed == (a is Ok)
                } else {
                    a is Err && after.hooks == before.hooks
                }
        },
        resolved.command == 0x07 ==> {
            &&& a == im::done()
            &&& after.power == before.power
            &&& after.events@ == before.events@
            &&& after.week@.len() == 7
            &&& forall|d: int| 0 <= d < 7 ==> (#[trigger] after.week@[d]).len() == 0
            &&& after.hooks.product().told() == before.hooks.product().told() + 1
        },
{
    law_a_week_has_seven_days(after.week);
}

/// What a read shows is what was commanded and what the hardware says: the supply, or that a fault holds it; the ends of
/// the windows; and the currents, the charge current no higher than the user allows.
pub proof fn law_the_supply_is_read_as_it_is<H: EvseHooks, const T: usize>(
    c: EnergyEvse<H, T>,
    resolved: Resolved,
    ctx: InteractionContext,
    tag: Tag,
    a: ReadAnswer,
)
    requires
        c.answers(resolved, ctx, tag, a),
    ensures
        exists|hw: Readings|
            {
                &&& #[trigger] c.hooks.reads(hw)
                &&& resolved.attribute == 0x0001 ==> a is Ok && tlv::shows_number(
                    a->Ok_0,
                    0,
                    tag,
                    if hw.fault != FaultStateEnum::NoError {
                        3
                    } else {
                        match c.power.supply {
                            SupplyStateEnum::Disabled => 0,
                            SupplyStateEnum::ChargingEnabled => 1,
                            SupplyStateEnum::DischargingEnabled => 2,
                            SupplyStateEnum::DisabledError => 3,
                            SupplyStateEnum::DisabledDiagnostics => 4,
                            SupplyStateEnum::Enabled => 5,
                        }
                    },
                )
                &&& resolved.attribute == 0x0003 ==> a is Ok && a->Ok_0 == (match c.power.charging_until {
                    Some(t) => tlv::unsigned_bytes(tag, t as u64),
                    None => tlv::null_bytes(tag),
                })
                &&& resolved.attribute == 0x0004 ==> a is Ok && a->Ok_0 == (match c.power.discharging_until {
                    Some(t) => tlv::unsigned_bytes(tag, t as u64),
                    None => tlv::null_bytes(tag),
                })
                &&& resolved.attribute == 0x0005 ==> a == Ok::<Seq<u8>, Status>(tlv::signed_bytes(tag, hw.circuit_capacity))
                &&& resolved.attribute == 0x0006 ==> a == Ok::<Seq<u8>, Status>(
                    tlv::signed_bytes(tag, c.power.minimum_charge_current),
                )
                &&& resolved.attribute == 0x0007 ==> a == Ok::<Seq<u8>, Status>(
                    tlv::signed_bytes(
                        tag,
                        if 0 < hw.user_maximum < c.power.maximum_charge_current {
                            hw.user_maximum
                        } else {
                            c.power.maximum_charge_current
                        },
                    ),
                )
                &&& resolved.attribute == 0x0008 ==> a == Ok::<Seq<u8>, Status>(
                    tlv::signed_bytes(tag, c.power.maximum_discharge_current),
                )
                &&& resolved.attribute == 0x0009 ==> a == Ok::<Seq<u8>, Status>(tlv::signed_bytes(tag, hw.user_maximum))
                &&& resolved.attribute == 0x0040 ==> a is Ok && a->Ok_0 == (match hw.session_id {
                    Some(t) => tlv::unsigned_bytes(tag, t as u64),
                    None => tlv::null_bytes(tag),
                })
            },
{
    assert forall|v: u64| tlv::shows_number(#[trigger] tlv::unsigned_bytes(tag, v), 0, tag, v) by {
        tlv::lemma_shows_number(tag, v);
    }
}

/// How the cluster describes itself follows from the features and from what the product chooses: each attribute, command and event
/// is there exactly where they say so, with who may read, write or invoke it, and nothing else is.
pub proof fn law_the_cluster_describes_itself(features: u32, o: conformance::OptionalModel, c: crate::dm::ClusterModel)
    requires
        conformance::conform(defined(), features, o) == Ok::<crate::dm::ClusterModel, ErrorCode>(c),
    ensures
        c.id == 0x0099,
        c.revision == 3,
        c.feature_map == features,
        features & !0x1Fu32 == 0,
        c.attributes.contains(conformance::shown_attribute(0x0000, None)) == (true),
        c.attributes.contains(conformance::shown_attribute(0x0001, None)) == (true),
        c.attributes.contains(conformance::shown_attribute(0x0002, None)) == (true),
        c.attributes.contains(conformance::shown_attribute(0x0003, None)) == (true),
        c.attributes.contains(conformance::shown_attribute(0x0004, None)) == (features & 0x10 != 0),
        c.attributes.contains(conformance::shown_attribute(0x0005, None)) == (true),
        c.attributes.contains(conformance::shown_attribute(0x0006, None)) == (true),
        c.attributes.contains(conformance::shown_attribute(0x0007, None)) == (true),
        c.attributes.contains(conformance::shown_attribute(0x0008, None)) == (features & 0x10 != 0),
        c.attributes.contains(conformance::shown_attribute(0x0009, Some(Privilege::Manage))) == (o.attributes.contains(0x0009)),
        c.attributes.contains(conformance::shown_attribute(0x000A, Some(Privilege::Manage))) == (o.attributes.contains(0x000A)),
        c.attributes.contains(conformance::shown_attribute(0x0023, None)) == (features & 0x01 != 0),
        c.attributes.contains(conformance::shown_attribute(0x0024, None)) == (features & 0x01 != 0),
        c.attributes.contains(conformance::shown_attribute(0x0025, None)) == (features & 0x01 != 0),
        c.attributes.contains(conformance::shown_attribute(0x0026, None)) == (features & 0x01 != 0),
        c.attributes.contains(conformance::shown_attribute(0x0027, Some(Privilege::Manage))) == (features & 0x01 != 0),
        c.attributes.contains(conformance::shown_attribute(0x0030, None)) == (features & 0x02 != 0),
        c.attributes.contains(conformance::shown_attribute(0x0031, None)) == (features & 0x02 != 0),
        c.attributes.contains(conformance::shown_attribute(0x0032, None)) == (features & 0x04 != 0),
        c.attributes.contains(conformance::shown_attribute(0x0040, None)) == (true),
        c.attributes.contains(conformance::shown_attribute(0x0041, None)) == (true),
        c.attributes.contains(conformance::shown_attribute(0x0042, None)) == (true),
        c.attributes.contains(conformance::shown_attribute(0x0043, None)) == (features & 0x10 != 0),
        c.accepted_commands.contains(conformance::shown_command(0x01, Privilege::Operate, false, true, None)) == (true),
        c.accepted_commands.contains(conformance::shown_command(0x02, Privilege::Operate, false, true, None)) == (true),
        c.accepted_commands.contains(conformance::shown_command(0x03, Privilege::Operate, false, true, None)) == (features & 0x10 != 0),
        c.accepted_commands.contains(conformance::shown_command(0x04, Privilege::Operate, false, true, None)) == (o.commands.contains(0x04)),
        c.accepted_commands.contains(conformance::shown_command(0x05, Privilege::Operate, false, true, None)) == (features & 0x01 != 0),
        c.accepted_commands.contains(conformance::shown_command(0x06, Privilege::Operate, false, true, Some(0x00u32))) == (features & 0x01 != 0),
        c.accepted_commands.contains(conformance::shown_command(0x07, Privilege::Operate, false, true, None)) == (features & 0x01 != 0),
        c.events.contains(conformance::shown_event(0x00, EventPriority::Info)) == (true),
        c.events.contains(conformance::shown_event(0x01, EventPriority::Info)) == (true),
        c.events.contains(conformance::shown_event(0x02, EventPriority::Info)) == (true),
        c.events.contains(conformance::shown_event(0x03, EventPriority::Info)) == (true),
        c.events.contains(conformance::shown_event(0x04, EventPriority::Critical)) == (true),
        c.events.contains(conformance::shown_event(0x05, EventPriority::Info)) == (features & 0x08 != 0),
        c.attributes.len() <= 23,
        c.accepted_commands.len() <= 7,
        c.events.len() <= 6,
{
    let d = defined();
    assert(conformance::told_apart(d.attributes));
    assert(conformance::told_apart(d.commands));
    assert(conformance::told_apart(d.events));
    conformance::lemma_described(d.attributes, features, o.attributes, conformance::shown_attribute(0x0000, None), 0);
    conformance::lemma_described(d.attributes, features, o.attributes, conformance::shown_attribute(0x0001, None), 1);
    conformance::lemma_described(d.attributes, features, o.attributes, conformance::shown_attribute(0x0002, None), 2);
    conformance::lemma_described(d.attributes, features, o.attributes, conformance::shown_attribute(0x0003, None), 3);
    conformance::lemma_described(d.attributes, features, o.attributes, conformance::shown_attribute(0x0004, None), 4);
    conformance::lemma_described(d.attributes, features, o.attributes, conformance::shown_attribute(0x0005, None), 5);
    conformance::lemma_described(d.attributes, features, o.attributes, conformance::shown_attribute(0x0006, None), 6);
    conformance::lemma_described(d.attributes, features, o.attributes, conformance::shown_attribute(0x0007, None), 7);
    conformance::lemma_described(d.attributes, features, o.attributes, conformance::shown_attribute(0x0008, None), 8);
    conformance::lemma_described(d.attributes, features, o.attributes, conformance::shown_attribute(0x0009, Some(Privilege::Manage)), 9);
    conformance::lemma_described(d.attributes, features, o.attributes, conformance::shown_attribute(0x000A, Some(Privilege::Manage)), 10);
    conformance::lemma_described(d.attributes, features, o.attributes, conformance::shown_attribute(0x0023, None), 11);
    conformance::lemma_described(d.attributes, features, o.attributes, conformance::shown_attribute(0x0024, None), 12);
    conformance::lemma_described(d.attributes, features, o.attributes, conformance::shown_attribute(0x0025, None), 13);
    conformance::lemma_described(d.attributes, features, o.attributes, conformance::shown_attribute(0x0026, None), 14);
    conformance::lemma_described(d.attributes, features, o.attributes, conformance::shown_attribute(0x0027, Some(Privilege::Manage)), 15);
    conformance::lemma_described(d.attributes, features, o.attributes, conformance::shown_attribute(0x0030, None), 16);
    conformance::lemma_described(d.attributes, features, o.attributes, conformance::shown_attribute(0x0031, None), 17);
    conformance::lemma_described(d.attributes, features, o.attributes, conformance::shown_attribute(0x0032, None), 18);
    conformance::lemma_described(d.attributes, features, o.attributes, conformance::shown_attribute(0x0040, None), 19);
    conformance::lemma_described(d.attributes, features, o.attributes, conformance::shown_attribute(0x0041, None), 20);
    conformance::lemma_described(d.attributes, features, o.attributes, conformance::shown_attribute(0x0042, None), 21);
    conformance::lemma_described(d.attributes, features, o.attributes, conformance::shown_attribute(0x0043, None), 22);
    conformance::lemma_described(d.commands, features, o.commands, conformance::shown_command(0x01, Privilege::Operate, false, true, None), 0);
    conformance::lemma_described(d.commands, features, o.commands, conformance::shown_command(0x02, Privilege::Operate, false, true, None), 1);
    conformance::lemma_described(d.commands, features, o.commands, conformance::shown_command(0x03, Privilege::Operate, false, true, None), 2);
    conformance::lemma_described(d.commands, features, o.commands, conformance::shown_command(0x04, Privilege::Operate, false, true, None), 3);
    conformance::lemma_described(d.commands, features, o.commands, conformance::shown_command(0x05, Privilege::Operate, false, true, None), 4);
    conformance::lemma_described(d.commands, features, o.commands, conformance::shown_command(0x06, Privilege::Operate, false, true, Some(0x00u32)), 5);
    conformance::lemma_described(d.commands, features, o.commands, conformance::shown_command(0x07, Privilege::Operate, false, true, None), 6);
    conformance::lemma_described(d.events, features, o.events, conformance::shown_event(0x00, EventPriority::Info), 0);
    conformance::lemma_described(d.events, features, o.events, conformance::shown_event(0x01, EventPriority::Info), 1);
    conformance::lemma_described(d.events, features, o.events, conformance::shown_event(0x02, EventPriority::Info), 2);
    conformance::lemma_described(d.events, features, o.events, conformance::shown_event(0x03, EventPriority::Info), 3);
    conformance::lemma_described(d.events, features, o.events, conformance::shown_event(0x04, EventPriority::Critical), 4);
    conformance::lemma_described(d.events, features, o.events, conformance::shown_event(0x05, EventPriority::Info), 5);
    conformance::lemma_at_most(d.attributes, features, o.attributes, d.attributes.len() as int);
    conformance::lemma_at_most(d.commands, features, o.commands, d.commands.len() as int);
    conformance::lemma_at_most(d.events, features, o.events, d.events.len() as int);
}

} // verus!
