//! Device Energy Management, cluster `0x0098`: an energy manager asks an appliance to shift or
//! shape what it draws, and the householder may refuse.
//!
//! What the appliance knows is asked once per command and gathered in an [`Appliance`];
//! [`DeviceEnergyManagement::decide`] says from it what a command comes to, the appliance does it,
//! and [`DeviceEnergyManagement::settle`] records how that went.

use vstd::prelude::*;

use crate::bounded;
use crate::bounded::List;
use crate::clusters::device_energy_management::recorded::{Call, Recorded};
use crate::clusters::dispatch::Cluster;
use crate::conformance;
use crate::conformance::{Conformance, Conforming, Definition, DefinitionModel, Optional};
use crate::dm::{EventPriority, Privilege};
use crate::error::ErrorCode;
use crate::fields;
use crate::fields::{Field, Fields, FromTlv, Kind, Need};
use crate::im;
use crate::im::{
    AttributeId, ClusterHandler, ClusterId, CommandId, EventId, InteractionContext, InvokeAnswer, Lifecycle, ReadAnswer, Reply,
    Resolved, ResolvedCommand, Status, StatusIb, WriteOp,
};
use crate::platform;
use crate::platform::{Duration, Instant};
use crate::tlv;
use crate::tlv::{ContainerKind, Element, Tag, Value};

pub mod recorded;

verus! {

/// The cluster.
pub const ID: ClusterId = 0x0098;

/// Its revision.
pub const REVISION: u16 = 4;

/// `ESAType`.
pub const ESA_TYPE: AttributeId = 0x0000;

/// `ESACanGenerate`.
pub const ESA_CAN_GENERATE: AttributeId = 0x0001;

/// `ESAState`.
pub const ESA_STATE: AttributeId = 0x0002;

/// `AbsMinPower`.
pub const ABS_MIN_POWER: AttributeId = 0x0003;

/// `AbsMaxPower`.
pub const ABS_MAX_POWER: AttributeId = 0x0004;

/// `PowerAdjustmentCapability`.
pub const POWER_ADJUSTMENT_CAPABILITY: AttributeId = 0x0005;

/// `Forecast`.
pub const FORECAST: AttributeId = 0x0006;

/// `OptOutState`.
pub const OPT_OUT_STATE: AttributeId = 0x0007;

/// `PowerAdjustRequest`.
pub const POWER_ADJUST_REQUEST: CommandId = 0x00;

/// `CancelPowerAdjustRequest`.
pub const CANCEL_POWER_ADJUST_REQUEST: CommandId = 0x01;

/// `StartTimeAdjustRequest`.
pub const START_TIME_ADJUST_REQUEST: CommandId = 0x02;

/// `PauseRequest`.
pub const PAUSE_REQUEST: CommandId = 0x03;

/// `ResumeRequest`.
pub const RESUME_REQUEST: CommandId = 0x04;

/// `ModifyForecastRequest`.
pub const MODIFY_FORECAST_REQUEST: CommandId = 0x05;

/// `RequestConstraintBasedForecast`.
pub const REQUEST_CONSTRAINT_BASED_FORECAST: CommandId = 0x06;

/// `CancelRequest`.
pub const CANCEL_REQUEST: CommandId = 0x07;

/// `PowerAdjustStart`.
pub const POWER_ADJUST_START: EventId = 0x00;

/// `PowerAdjustEnd`.
pub const POWER_ADJUST_END: EventId = 0x01;

/// `Paused`.
pub const PAUSED: EventId = 0x02;

/// `Resumed`.
pub const RESUMED: EventId = 0x03;

/// `PA`: the power can be adjusted.
pub const POWER_ADJUSTMENT: u32 = 0x01;

/// `STA`: the start can be moved.
pub const START_TIME_ADJUSTMENT: u32 = 0x08;

/// `PAU`: the appliance can be paused.
pub const PAUSABLE: u32 = 0x10;

/// `FA`: the forecast can be changed slot by slot.
pub const FORECAST_ADJUSTMENT: u32 = 0x20;

/// `CON`: the forecast can be planned around constraints.
pub const CONSTRAINT_BASED_ADJUSTMENT: u32 = 0x40;

/// The most slot adjustments, or constraints, that one command may carry.
pub const ADJUSTMENTS_MAX: usize = 10;

/// What kind of appliance it is.
#[derive(Debug, Clone, Copy, PartialEq, Eq, Structural)]
pub enum ESATypeEnum {
    /// A charger for vehicles.
    EVSE,
    /// Heats rooms.
    SpaceHeating,
    /// Heats water.
    WaterHeating,
    /// Cools rooms.
    SpaceCooling,
    /// Heats and cools rooms.
    SpaceHeatingCooling,
    /// Stores energy.
    BatteryStorage,
    /// Makes energy from the sun.
    SolarPV,
    /// Keeps food cold.
    FridgeFreezer,
    /// Washes clothes.
    WashingMachine,
    /// Washes dishes.
    Dishwasher,
    /// Cooks.
    Cooking,
    /// Pumps water around the home.
    HomeWaterPump,
    /// Pumps water onto the garden.
    IrrigationWaterPump,
    /// Pumps a pool's water.
    PoolPump,
    /// Anything else.
    Other,
}

/// The number that stands for a kind of appliance.
pub open spec fn type_value(t: ESATypeEnum) -> u8 {
    match t {
        ESATypeEnum::EVSE => 0,
        ESATypeEnum::SpaceHeating => 1,
        ESATypeEnum::WaterHeating => 2,
        ESATypeEnum::SpaceCooling => 3,
        ESATypeEnum::SpaceHeatingCooling => 4,
        ESATypeEnum::BatteryStorage => 5,
        ESATypeEnum::SolarPV => 6,
        ESATypeEnum::FridgeFreezer => 7,
        ESATypeEnum::WashingMachine => 8,
        ESATypeEnum::Dishwasher => 9,
        ESATypeEnum::Cooking => 10,
        ESATypeEnum::HomeWaterPump => 11,
        ESATypeEnum::IrrigationWaterPump => 12,
        ESATypeEnum::PoolPump => 13,
        ESATypeEnum::Other => 255,
    }
}

impl ESATypeEnum {
    /// The number that stands for it.
    pub fn value(self) -> (v: u8)
        ensures
            v == type_value(self),
    {
        match self {
            ESATypeEnum::EVSE => 0,
            ESATypeEnum::SpaceHeating => 1,
            ESATypeEnum::WaterHeating => 2,
            ESATypeEnum::SpaceCooling => 3,
            ESATypeEnum::SpaceHeatingCooling => 4,
            ESATypeEnum::BatteryStorage => 5,
            ESATypeEnum::SolarPV => 6,
            ESATypeEnum::FridgeFreezer => 7,
            ESATypeEnum::WashingMachine => 8,
            ESATypeEnum::Dishwasher => 9,
            ESATypeEnum::Cooking => 10,
            ESATypeEnum::HomeWaterPump => 11,
            ESATypeEnum::IrrigationWaterPump => 12,
            ESATypeEnum::PoolPump => 13,
            ESATypeEnum::Other => 255,
        }
    }
}

/// How the appliance is doing.
#[derive(Debug, Clone, Copy, PartialEq, Eq, Structural)]
pub enum ESAStateEnum {
    /// It cannot be reached.
    Offline,
    /// It runs.
    Online,
    /// It has a fault.
    Fault,
    /// It runs at an adjusted power.
    PowerAdjustActive,
    /// It is paused.
    Paused,
}

/// The number that stands for a state.
pub open spec fn state_value(s: ESAStateEnum) -> u8 {
    match s {
        ESAStateEnum::Offline => 0,
        ESAStateEnum::Online => 1,
        ESAStateEnum::Fault => 2,
        ESAStateEnum::PowerAdjustActive => 3,
        ESAStateEnum::Paused => 4,
    }
}

impl ESAStateEnum {
    /// The number that stands for it.
    pub fn value(self) -> (v: u8)
        ensures
            v == state_value(self),
    {
        match self {
            ESAStateEnum::Offline => 0,
            ESAStateEnum::Online => 1,
            ESAStateEnum::Fault => 2,
            ESAStateEnum::PowerAdjustActive => 3,
            ESAStateEnum::Paused => 4,
        }
    }
}

/// What the householder has opted out of.
#[derive(Debug, Clone, Copy, PartialEq, Eq, Structural)]
pub enum OptOutStateEnum {
    /// Nothing.
    NoOptOut,
    /// Adjustments for the home.
    LocalOptOut,
    /// Adjustments for the grid.
    GridOptOut,
    /// All adjustments.
    OptOut,
}

/// The number that stands for an opt-out.
pub open spec fn opt_out_value(s: OptOutStateEnum) -> u8 {
    match s {
        OptOutStateEnum::NoOptOut => 0,
        OptOutStateEnum::LocalOptOut => 1,
        OptOutStateEnum::GridOptOut => 2,
        OptOutStateEnum::OptOut => 3,
    }
}

impl OptOutStateEnum {
    /// The number that stands for it.
    pub fn value(self) -> (v: u8)
        ensures
            v == opt_out_value(self),
    {
        match self {
            OptOutStateEnum::NoOptOut => 0,
            OptOutStateEnum::LocalOptOut => 1,
            OptOutStateEnum::GridOptOut => 2,
            OptOutStateEnum::OptOut => 3,
        }
    }
}

/// Whose good an adjustment is for.
#[derive(Debug, Clone, Copy, PartialEq, Eq, Structural)]
pub enum AdjustmentCauseEnum {
    /// The home's.
    LocalOptimization,
    /// The grid's.
    GridOptimization,
}

/// Why a power adjustment is running.
#[derive(Debug, Clone, Copy, PartialEq, Eq, Structural)]
pub enum PowerAdjustReasonEnum {
    /// None is.
    NoAdjustment,
    /// For the home's good.
    LocalOptimizationAdjustment,
    /// For the grid's good.
    GridOptimizationAdjustment,
}

/// The number that stands for a reason.
pub open spec fn reason_value(r: PowerAdjustReasonEnum) -> u8 {
    match r {
        PowerAdjustReasonEnum::NoAdjustment => 0,
        PowerAdjustReasonEnum::LocalOptimizationAdjustment => 1,
        PowerAdjustReasonEnum::GridOptimizationAdjustment => 2,
    }
}

impl PowerAdjustReasonEnum {
    /// The number that stands for it.
    pub fn value(self) -> (v: u8)
        ensures
            v == reason_value(self),
    {
        match self {
            PowerAdjustReasonEnum::NoAdjustment => 0,
            PowerAdjustReasonEnum::LocalOptimizationAdjustment => 1,
            PowerAdjustReasonEnum::GridOptimizationAdjustment => 2,
        }
    }
}

/// Why an adjustment or a pause ended.
#[derive(Debug, Clone, Copy, PartialEq, Eq, Structural)]
pub enum CauseEnum {
    /// Its time was up.
    NormalCompletion,
    /// The appliance went away.
    Offline,
    /// The appliance failed.
    Fault,
    /// The householder opted out.
    UserOptOut,
    /// It was called off.
    Cancelled,
}

/// A range of powers and durations that the appliance offers.
#[derive(Debug, Clone, Copy, PartialEq, Eq, Structural)]
pub struct PowerAdjustStruct {
    /// The least power, in milliwatts.
    pub min_power: i64,
    /// The most power.
    pub max_power: i64,
    /// The shortest time, in seconds.
    pub min_duration: u32,
    /// The longest time.
    pub max_duration: u32,
}

impl PowerAdjustStruct {
    /// Whether a power for a time lies in the range.
    pub open spec fn holds(self, power: i64, duration: u32) -> bool {
        self.min_power <= power <= self.max_power && self.min_duration <= duration <= self.max_duration
    }

    /// The range, encoded.
    pub open spec fn encoded(self) -> Seq<u8> {
        tlv::structure_bytes(
            Tag::Anonymous,
            tlv::signed_bytes(Tag::Context(0), self.min_power) + tlv::signed_bytes(Tag::Context(1), self.max_power)
                + tlv::unsigned_bytes(Tag::Context(2), self.min_duration as u64) + tlv::unsigned_bytes(
                Tag::Context(3),
                self.max_duration as u64,
            ),
        )
    }

    fn encode(&self, out: &mut Vec<u8>)
        ensures
            final(out)@ == old(out)@ + self.encoded(),
    {
        let mut body: Vec<u8> = Vec::new();
        tlv::put_signed(&mut body, Tag::Context(0), self.min_power);
        tlv::put_signed(&mut body, Tag::Context(1), self.max_power);
        tlv::put_unsigned(&mut body, Tag::Context(2), self.min_duration as u64);
        tlv::put_unsigned(&mut body, Tag::Context(3), self.max_duration as u64);
        proof {
            assert(Seq::<u8>::empty() + tlv::signed_bytes(Tag::Context(0), self.min_power) =~= tlv::signed_bytes(
                Tag::Context(0),
                self.min_power,
            ));
        }
        tlv::put_structure(out, Tag::Anonymous, &body);
    }
}

/// A change to one slot of the forecast.
#[derive(Debug, Clone, Copy, PartialEq, Eq, Structural)]
pub struct SlotAdjustmentStruct {
    /// Which slot.
    pub slot_index: u8,
    /// Its power, in milliwatts.
    pub nominal_power: Option<i64>,
    /// Its duration, in seconds.
    pub duration: u32,
}

/// The fields of a slot adjustment.
pub open spec fn slot_schema() -> Seq<Field> {
    seq![
        Field(0, Kind::U8, Need::Required),
        Field(1, Kind::I64, Need::Optional),
        Field(2, Kind::U32, Need::Required),
    ]
}

impl FromTlv for SlotAdjustmentStruct {
    open spec fn of(b: Seq<u8>, e: Element) -> Result<Self, Status> {
        match e.value {
            Value::Container(ContainerKind::Structure, start) => match fields::decode_at(
                b,
                start as int,
                slot_schema(),
            ) {
                Ok(items) => match (fields::num8(items, 0), fields::num32(items, 2)) {
                    (Some(slot_index), Some(duration)) => Ok(
                        SlotAdjustmentStruct { slot_index, nominal_power: fields::int64(items, 1), duration },
                    ),
                    _ => Err(Status::ConstraintError),
                },
                Err(_) => Err(Status::ConstraintError),
            },
            _ => Err(Status::ConstraintError),
        }
    }

    fn from_tlv(data: &[u8], e: &Element) -> (r: Result<Self, Status>) {
        match e.value {
            Value::Container(ContainerKind::Structure, start) => {
                let schema: Vec<Field> = vec![
                    Field(0, Kind::U8, Need::Required),
                    Field(1, Kind::I64, Need::Optional),
                    Field(2, Kind::U32, Need::Required),
                ];
                proof {
                    assert(schema@ =~= slot_schema());
                }
                match fields::read_at(data, start, &schema) {
                    Ok(f) => match (f.num8(0), f.num32(2)) {
                        (Some(slot_index), Some(duration)) => Ok(
                            SlotAdjustmentStruct { slot_index, nominal_power: f.int64(1), duration },
                        ),
                        _ => Err(Status::ConstraintError),
                    },
                    Err(_) => Err(Status::ConstraintError),
                }
            },
            _ => Err(Status::ConstraintError),
        }
    }
}

/// A constraint that the forecast is to be planned around.
#[derive(Debug, Clone, Copy, PartialEq, Eq, Structural)]
pub struct ConstraintsStruct {
    /// From when, in seconds of the epoch.
    pub start_time: u32,
    /// For how long, in seconds.
    pub duration: u32,
    /// The power to aim for, in milliwatts.
    pub nominal_power: Option<i64>,
    /// The most energy, in milliwatt hours.
    pub maximum_energy: Option<i64>,
    /// How hard to turn the load up or down.
    pub load_control: Option<i8>,
}

/// The fields of a constraint.
pub open spec fn constraint_schema() -> Seq<Field> {
    seq![
        Field(0, Kind::U32, Need::Required),
        Field(1, Kind::U32, Need::Required),
        Field(2, Kind::I64, Need::Optional),
        Field(3, Kind::I64, Need::Optional),
        Field(4, Kind::I8, Need::Optional),
    ]
}

impl FromTlv for ConstraintsStruct {
    open spec fn of(b: Seq<u8>, e: Element) -> Result<Self, Status> {
        match e.value {
            Value::Container(ContainerKind::Structure, start) => match fields::decode_at(
                b,
                start as int,
                constraint_schema(),
            ) {
                Ok(items) => match (fields::num32(items, 0), fields::num32(items, 1)) {
                    (Some(start_time), Some(duration)) => Ok(
                        ConstraintsStruct {
                            start_time,
                            duration,
                            nominal_power: fields::int64(items, 2),
                            maximum_energy: fields::int64(items, 3),
                            load_control: fields::int8(items, 4),
                        },
                    ),
                    _ => Err(Status::ConstraintError),
                },
                Err(_) => Err(Status::ConstraintError),
            },
            _ => Err(Status::ConstraintError),
        }
    }

    fn from_tlv(data: &[u8], e: &Element) -> (r: Result<Self, Status>) {
        match e.value {
            Value::Container(ContainerKind::Structure, start) => {
                let schema: Vec<Field> = vec![
                    Field(0, Kind::U32, Need::Required),
                    Field(1, Kind::U32, Need::Required),
                    Field(2, Kind::I64, Need::Optional),
                    Field(3, Kind::I64, Need::Optional),
                    Field(4, Kind::I8, Need::Optional),
                ];
                proof {
                    assert(schema@ =~= constraint_schema());
                }
                match fields::read_at(data, start, &schema) {
                    Ok(f) => match (f.num32(0), f.num32(1)) {
                        (Some(start_time), Some(duration)) => Ok(
                            ConstraintsStruct {
                                start_time,
                                duration,
                                nominal_power: f.int64(2),
                                maximum_energy: f.int64(3),
                                load_control: f.int8(4),
                            },
                        ),
                        _ => Err(Status::ConstraintError),
                    },
                    Err(_) => Err(Status::ConstraintError),
                }
            },
            _ => Err(Status::ConstraintError),
        }
    }
}

/// What the cluster has to know of the plan that the appliance is running.
#[derive(Debug, Clone, Copy, PartialEq, Eq, Structural)]
pub struct ForecastSummary {
    /// Which plan it is.
    pub forecast_id: u32,
    /// When it starts, in seconds of the epoch.
    pub start_time: u32,
    /// When it ends.
    pub end_time: u32,
    /// How early it may start, where there is a bound.
    pub earliest_start_time: Option<u32>,
    /// How late it may end, where there is a bound.
    pub latest_end_time: Option<u32>,
    /// Whether the active slot may be paused.
    pub slot_is_pausable: bool,
    /// The shortest pause of the active slot, in seconds.
    pub min_pause_duration: u32,
    /// The longest.
    pub max_pause_duration: u32,
    /// Whether there is an adjustment to call off.
    pub adjusted: bool,
}

impl Default for ForecastSummary {
    /// A plan that cannot be moved or paused.
    fn default() -> (d: Self)
        ensures
            d == (ForecastSummary {
                forecast_id: 0,
                start_time: 0,
                end_time: 0,
                earliest_start_time: None,
                latest_end_time: None,
                slot_is_pausable: false,
                min_pause_duration: 0,
                max_pause_duration: 0,
                adjusted: false,
            }),
    {
        ForecastSummary {
            forecast_id: 0,
            start_time: 0,
            end_time: 0,
            earliest_start_time: None,
            latest_end_time: None,
            slot_is_pausable: false,
            min_pause_duration: 0,
            max_pause_duration: 0,
            adjusted: false,
        }
    }
}

/// What the appliance knows and decides.
pub trait DemHooks {
    /// What kind of appliance it is.
    fn esa_type(&self) -> ESATypeEnum;

    /// Whether it can give power as well as take it.
    fn can_generate(&self) -> (r: bool)
        default_ensures
            !r,
    {
        false
    }

    /// Its own state, before an adjustment or a pause.
    fn base_state(&self) -> ESAStateEnum;

    /// The least power it draws, in milliwatts.
    fn abs_min_power(&self) -> i64;

    /// The most power it draws.
    fn abs_max_power(&self) -> i64;

    /// What the householder has opted out of.
    fn opt_out_state(&self) -> (r: OptOutStateEnum)
        default_ensures
            r == OptOutStateEnum::NoOptOut,
    {
        OptOutStateEnum::NoOptOut
    }

    /// The ranges on offer; none where nothing can be adjusted now.
    fn power_adjust_ranges(&self) -> (r: Vec<PowerAdjustStruct>)
        default_ensures
            r@.len() == 0,
    {
        Vec::new()
    }

    /// What it is planning.
    fn forecast(&self) -> (r: Option<ForecastSummary>)
        default_ensures
            r is None,
    {
        None
    }

    /// The `Forecast` attribute, encoded under a tag: null where there is none.
    fn write_forecast(&self, tag: Tag) -> (r: Vec<u8>)
        default_ensures
            r@ == tlv::null_bytes(tag),
    {
        let mut out: Vec<u8> = Vec::new();
        tlv::put_null(&mut out, tag);
        proof {
            assert(out@ =~= tlv::null_bytes(tag));
        }
        out
    }

    /// Runs at a power for a time: the appliance just said that it runs, that the householder allows
    /// it for that cause, and that it is on offer.
    fn power_adjust(&self, power_mw: i64, duration_s: u32, cause: AdjustmentCauseEnum) -> (r: Result<(), Status>)
        requires
            exists|o: OptOutStateEnum| #[trigger] call_ensures(Self::opt_out_state, (self,), o) && allowed(o, cause),
            call_ensures(Self::base_state, (self,), ESAStateEnum::Online),
            exists|ranges: Vec<PowerAdjustStruct>| #[trigger]
                call_ensures(Self::power_adjust_ranges, (self,), ranges) && on_offer(ranges@, power_mw, duration_s),
        default_ensures
            r == Err::<(), Status>(Status::Failure),
    {
        Err(Status::Failure)
    }

    /// Whether a new adjustment may take over from one that is running.
    fn may_interrupt_adjustment(&self) -> (r: bool)
        default_ensures
            r,
    {
        true
    }

    /// The adjustment ended.
    fn end_power_adjust(&self, cause: CauseEnum) {
    }

    /// Moves the plan's start: the appliance just said that the householder allows it for that cause,
    /// and that the plan can start then.
    fn adjust_start_time(&self, requested_start_time: u32, cause: AdjustmentCauseEnum) -> (r: Result<(), Status>)
        requires
            exists|o: OptOutStateEnum| #[trigger] call_ensures(Self::opt_out_state, (self,), o) && allowed(o, cause),
            exists|f: ForecastSummary| #[trigger]
                call_ensures(Self::forecast, (self,), Some(f)) && movable(f, requested_start_time),
        default_ensures
            r == Err::<(), Status>(Status::Failure),
    {
        Err(Status::Failure)
    }

    /// Pauses: the appliance just said that the householder allows it for that cause, and that its plan
    /// can be paused for that long.
    fn pause(&self, duration_s: u32, cause: AdjustmentCauseEnum) -> (r: Result<(), Status>)
        requires
            exists|o: OptOutStateEnum| #[trigger] call_ensures(Self::opt_out_state, (self,), o) && allowed(o, cause),
            exists|f: ForecastSummary| #[trigger]
                call_ensures(Self::forecast, (self,), Some(f)) && pausable(f, duration_s),
        default_ensures
            r == Err::<(), Status>(Status::Failure),
    {
        Err(Status::Failure)
    }

    /// Goes on after a pause.
    fn resume(&self) -> (r: Result<(), Status>)
        default_ensures
            r is Ok,
    {
        Ok(())
    }

    /// Changes slots of the plan, all of them or none: the appliance just said that the householder
    /// allows it for that cause, and that it has a plan.
    fn modify_forecast(&self, adjustments: &Vec<SlotAdjustmentStruct>, cause: AdjustmentCauseEnum) -> (r: Result<(), Status>)
        requires
            exists|o: OptOutStateEnum| #[trigger] call_ensures(Self::opt_out_state, (self,), o) && allowed(o, cause),
            exists|f: ForecastSummary| #[trigger] call_ensures(Self::forecast, (self,), Some(f)),
            adjustments@.len() <= ADJUSTMENTS_MAX,
        default_ensures
            r == Err::<(), Status>(Status::Failure),
    {
        Err(Status::Failure)
    }

    /// Plans around constraints: the appliance just said that the householder allows it for that
    /// cause.
    fn constraint_based_forecast(&self, constraints: &Vec<ConstraintsStruct>, cause: AdjustmentCauseEnum) -> (r: Result<(), Status>)
        requires
            exists|o: OptOutStateEnum| #[trigger] call_ensures(Self::opt_out_state, (self,), o) && allowed(o, cause),
            constraints@.len() <= ADJUSTMENTS_MAX,
        default_ensures
            r == Err::<(), Status>(Status::Failure),
    {
        Err(Status::Failure)
    }

    /// Forgets every adjustment of a plan that the appliance just said is adjusted.
    fn cancel_adjustments(&self) -> (r: Result<(), Status>)
        requires
            exists|f: ForecastSummary| #[trigger] call_ensures(Self::forecast, (self,), Some(f)) && f.adjusted,
        default_ensures
            r is Ok,
    {
        Ok(())
    }
}

/// What happened, for the device to record.
#[derive(Debug, Clone, Copy, PartialEq, Eq, Structural)]
pub enum Event {
    /// An adjustment began.
    PowerAdjustStart,
    /// It ended.
    PowerAdjustEnd(CauseEnum),
    /// The appliance paused.
    Paused,
    /// It went on.
    Resumed(CauseEnum),
}

/// What the appliance says when a command arrives.
#[derive(Debug)]
pub struct Appliance {
    /// Its own state.
    pub base_state: ESAStateEnum,
    /// What the householder has opted out of.
    pub opt_out: OptOutStateEnum,
    /// The ranges on offer.
    pub ranges: Vec<PowerAdjustStruct>,
    /// Whether a running adjustment may be taken over.
    pub may_interrupt: bool,
    /// What it is planning.
    pub forecast: Option<ForecastSummary>,
}

/// What a command asks the appliance to do.
#[derive(Debug)]
pub enum Action {
    /// Run at a power for a time.
    PowerAdjust(i64, u32, AdjustmentCauseEnum),
    /// End the adjustment.
    CancelPowerAdjust,
    /// Move the plan's start.
    AdjustStart(u32, AdjustmentCauseEnum),
    /// Pause.
    Pause(u32, AdjustmentCauseEnum),
    /// Go on after a pause.
    Resume,
    /// Change slots of the plan.
    ModifyForecast(Vec<SlotAdjustmentStruct>, AdjustmentCauseEnum),
    /// Plan around constraints.
    Constrain(Vec<ConstraintsStruct>, AdjustmentCauseEnum),
    /// Forget every adjustment.
    CancelAdjustments,
}

/// What is running.
#[derive(Debug, Clone, Copy, PartialEq, Eq, Structural)]
pub struct Session {
    /// Why a power adjustment is running, or that none is.
    pub adjust_reason: PowerAdjustReasonEnum,
    /// When it ends.
    pub adjust_until: Option<Instant>,
    /// When the pause ends, where there is one.
    pub paused_until: Option<Instant>,
}

/// The state that is reported: the appliance's own unless it simply runs, and else a pause before
/// an adjustment.
pub open spec fn reported(base: ESAStateEnum, s: Session) -> ESAStateEnum {
    if base != ESAStateEnum::Online {
        base
    } else if s.paused_until is Some {
        ESAStateEnum::Paused
    } else if s.adjust_reason != PowerAdjustReasonEnum::NoAdjustment {
        ESAStateEnum::PowerAdjustActive
    } else {
        ESAStateEnum::Online
    }
}

/// Whether the householder's opt-out allows an adjustment for a cause.
pub open spec fn allowed(opt_out: OptOutStateEnum, cause: AdjustmentCauseEnum) -> bool {
    match opt_out {
        OptOutStateEnum::NoOptOut => true,
        OptOutStateEnum::OptOut => false,
        OptOutStateEnum::LocalOptOut => cause != AdjustmentCauseEnum::LocalOptimization,
        OptOutStateEnum::GridOptOut => cause != AdjustmentCauseEnum::GridOptimization,
    }
}

/// The cause that a field holds.
pub open spec fn cause_of(items: Seq<Element>, tag: u8) -> AdjustmentCauseEnum {
    if fields::num(items, tag) == Some(0u64) {
        AdjustmentCauseEnum::LocalOptimization
    } else {
        AdjustmentCauseEnum::GridOptimization
    }
}

fn cause_in(f: &Fields, tag: u8) -> (c: AdjustmentCauseEnum)
    requires
        f.wf(),
    ensures
        c == cause_of(f.items@, tag),
{
    match f.num(tag) {
        Some(v) => if v == 0 {
            AdjustmentCauseEnum::LocalOptimization
        } else {
            AdjustmentCauseEnum::GridOptimization
        },
        None => AdjustmentCauseEnum::GridOptimization,
    }
}

/// The fields of `PowerAdjustRequest`.
pub open spec fn power_adjust_schema() -> Seq<Field> {
    seq![
        Field(0, Kind::I64, Need::Required),
        Field(1, Kind::U32, Need::Required),
        Field(2, Kind::Enum(1), Need::Required),
    ]
}

/// The fields of `StartTimeAdjustRequest` and of `PauseRequest`.
pub open spec fn timed_schema() -> Seq<Field> {
    seq![Field(0, Kind::U32, Need::Required), Field(1, Kind::Enum(1), Need::Required)]
}

/// The fields of `ModifyForecastRequest`.
pub open spec fn modify_schema() -> Seq<Field> {
    seq![
        Field(0, Kind::U32, Need::Required),
        Field(1, Kind::Array, Need::Required),
        Field(2, Kind::Enum(1), Need::Required),
    ]
}

/// The fields of `RequestConstraintBasedForecast`.
pub open spec fn constrain_schema() -> Seq<Field> {
    seq![Field(0, Kind::Array, Need::Required), Field(1, Kind::Enum(1), Need::Required)]
}

/// Whether some range on offer holds a power for a time.
pub open spec fn on_offer(ranges: Seq<PowerAdjustStruct>, power: i64, duration: u32) -> bool {
    exists|i: int| 0 <= i < ranges.len() && (#[trigger] ranges[i]).holds(power, duration)
}

/// `PowerAdjustRequest`: the householder allows it, the appliance runs, a range on offer holds it,
/// and any adjustment that is running may be taken over.
pub open spec fn power_adjust_verdict(
    s: Session,
    ap: Appliance,
    power: i64,
    duration: u32,
    cause: AdjustmentCauseEnum,
) -> Option<Status> {
    if !allowed(ap.opt_out, cause) {
        Some(Status::ConstraintError)
    } else if ap.base_state != ESAStateEnum::Online {
        Some(Status::Failure)
    } else if !on_offer(ap.ranges@, power, duration) {
        Some(Status::ConstraintError)
    } else if s.adjust_reason != PowerAdjustReasonEnum::NoAdjustment && !ap.may_interrupt {
        Some(Status::Busy)
    } else {
        None
    }
}

/// The end of a plan that is moved to start at `start`.
pub open spec fn moved_end(f: ForecastSummary, start: u32) -> int {
    let span = if f.end_time >= f.start_time { f.end_time - f.start_time } else { 0 };
    if start + span > u32::MAX { u32::MAX as int } else { start + span }
}

/// Whether a plan can start at `start`: it stays between its bounds.
pub open spec fn movable(f: ForecastSummary, start: u32) -> bool {
    &&& f.earliest_start_time matches Some(earliest) ==> start >= earliest
    &&& f.latest_end_time matches Some(latest) ==> moved_end(f, start) <= latest
}

/// Whether the active slot of a plan can be paused for so long.
pub open spec fn pausable(f: ForecastSummary, duration: u32) -> bool {
    f.slot_is_pausable && f.min_pause_duration <= duration <= f.max_pause_duration
}

/// Whether what the appliance says warrants asking it to do something.
pub open spec fn warranted(ap: Appliance, action: Action) -> bool {
    match action {
        Action::PowerAdjust(power, duration, cause) => {
            &&& allowed(ap.opt_out, cause)
            &&& ap.base_state == ESAStateEnum::Online
            &&& on_offer(ap.ranges@, power, duration)
        },
        Action::AdjustStart(start, cause) => allowed(ap.opt_out, cause) && (ap.forecast matches Some(f) && movable(f, start)),
        Action::Pause(duration, cause) => allowed(ap.opt_out, cause) && (ap.forecast matches Some(f) && pausable(f, duration)),
        Action::ModifyForecast(slots, cause) => {
            &&& allowed(ap.opt_out, cause)
            &&& ap.forecast is Some
            &&& slots@.len() <= ADJUSTMENTS_MAX
        },
        Action::Constrain(constraints, cause) => allowed(ap.opt_out, cause) && constraints@.len() <= ADJUSTMENTS_MAX,
        Action::CancelAdjustments => ap.forecast matches Some(f) && f.adjusted,
        Action::CancelPowerAdjust | Action::Resume => true,
    }
}

/// `StartTimeAdjustRequest`: the householder allows it, there is a plan, and it stays between its
/// bounds.
pub open spec fn start_verdict(ap: Appliance, start: u32, cause: AdjustmentCauseEnum) -> Option<Status> {
    if !allowed(ap.opt_out, cause) {
        Some(Status::ConstraintError)
    } else {
        match ap.forecast {
            None => Some(Status::Failure),
            Some(f) => if movable(f, start) {
                None
            } else {
                Some(Status::ConstraintError)
            },
        }
    }
}

/// `PauseRequest`: the householder allows it, the active slot can be paused for that long, and the
/// appliance runs.
pub open spec fn pause_verdict(s: Session, ap: Appliance, duration: u32, cause: AdjustmentCauseEnum) -> Option<Status> {
    if !allowed(ap.opt_out, cause) {
        Some(Status::ConstraintError)
    } else {
        match ap.forecast {
            None => Some(Status::Failure),
            Some(f) => if !f.slot_is_pausable {
                Some(Status::Failure)
            } else if duration < f.min_pause_duration || duration > f.max_pause_duration {
                Some(Status::ConstraintError)
            } else if reported(ap.base_state, s) is Offline || reported(ap.base_state, s) is Fault {
                Some(Status::Failure)
            } else {
                None
            },
        }
    }
}

/// What a command comes to: what the appliance is asked to do, or the status it is refused with.
pub open spec fn decided(
    features: u32,
    s: Session,
    command: CommandId,
    data: Option<Seq<u8>>,
    ap: Appliance,
    r: Result<Action, Status>,
) -> bool {
    if command == POWER_ADJUST_REQUEST {
        if features & POWER_ADJUSTMENT == 0 {
            r == Err::<Action, Status>(Status::UnsupportedCommand)
        } else {
            match fields::decode_some(data, power_adjust_schema()) {
                Err(status) => r == Err::<Action, Status>(status),
                Ok(items) => match (fields::int64(items, 0), fields::num32(items, 1)) {
                    (Some(power), Some(duration)) => {
                        let cause = cause_of(items, 2);
                        match power_adjust_verdict(s, ap, power, duration, cause) {
                            Some(status) => r == Err::<Action, Status>(status),
                            None => r == Ok::<Action, Status>(Action::PowerAdjust(power, duration, cause)),
                        }
                    },
                    _ => r == Err::<Action, Status>(Status::InvalidCommand),
                },
            }
        }
    } else if command == CANCEL_POWER_ADJUST_REQUEST {
        if features & POWER_ADJUSTMENT == 0 {
            r == Err::<Action, Status>(Status::UnsupportedCommand)
        } else if s.adjust_reason == PowerAdjustReasonEnum::NoAdjustment {
            r == Err::<Action, Status>(Status::InvalidInState)
        } else {
            r == Ok::<Action, Status>(Action::CancelPowerAdjust)
        }
    } else if command == START_TIME_ADJUST_REQUEST {
        if features & START_TIME_ADJUSTMENT == 0 {
            r == Err::<Action, Status>(Status::UnsupportedCommand)
        } else {
            match fields::decode_some(data, timed_schema()) {
                Err(status) => r == Err::<Action, Status>(status),
                Ok(items) => match fields::num32(items, 0) {
                    Some(start) => match start_verdict(ap, start, cause_of(items, 1)) {
                        Some(status) => r == Err::<Action, Status>(status),
                        None => r == Ok::<Action, Status>(Action::AdjustStart(start, cause_of(items, 1))),
                    },
                    None => r == Err::<Action, Status>(Status::InvalidCommand),
                },
            }
        }
    } else if command == PAUSE_REQUEST {
        if features & PAUSABLE == 0 {
            r == Err::<Action, Status>(Status::UnsupportedCommand)
        } else {
            match fields::decode_some(data, timed_schema()) {
                Err(status) => r == Err::<Action, Status>(status),
                Ok(items) => match fields::num32(items, 0) {
                    Some(duration) => match pause_verdict(s, ap, duration, cause_of(items, 1)) {
                        Some(status) => r == Err::<Action, Status>(status),
                        None => r == Ok::<Action, Status>(Action::Pause(duration, cause_of(items, 1))),
                    },
                    None => r == Err::<Action, Status>(Status::InvalidCommand),
                },
            }
        }
    } else if command == RESUME_REQUEST {
        if features & PAUSABLE == 0 {
            r == Err::<Action, Status>(Status::UnsupportedCommand)
        } else if s.paused_until is None {
            r == Err::<Action, Status>(Status::InvalidInState)
        } else {
            r == Ok::<Action, Status>(Action::Resume)
        }
    } else if command == MODIFY_FORECAST_REQUEST {
        if features & FORECAST_ADJUSTMENT == 0 {
            r == Err::<Action, Status>(Status::UnsupportedCommand)
        } else {
            match fields::decode_some(data, modify_schema()) {
                Err(status) => r == Err::<Action, Status>(status),
                Ok(items) => match (fields::num32(items, 0), fields::container(items, 1)) {
                    (Some(id), Some(start)) => if !allowed(ap.opt_out, cause_of(items, 2)) {
                        r == Err::<Action, Status>(Status::ConstraintError)
                    } else {
                        match fields::list_of::<SlotAdjustmentStruct>(
                            data->Some_0,
                            start as int,
                            ADJUSTMENTS_MAX as int,
                            Status::ConstraintError,
                        ) {
                            Err(status) => r == Err::<Action, Status>(status),
                            Ok(slots) => match ap.forecast {
                                None => r == Err::<Action, Status>(Status::Failure),
                                Some(f) => if f.forecast_id != id {
                                    r == Err::<Action, Status>(Status::Failure)
                                } else {
                                    r matches Ok(Action::ModifyForecast(list, cause)) && list@ == slots && cause
                                        == cause_of(items, 2)
                                },
                            },
                        }
                    },
                    _ => r == Err::<Action, Status>(Status::InvalidCommand),
                },
            }
        }
    } else if command == REQUEST_CONSTRAINT_BASED_FORECAST {
        if features & CONSTRAINT_BASED_ADJUSTMENT == 0 {
            r == Err::<Action, Status>(Status::UnsupportedCommand)
        } else {
            match fields::decode_some(data, constrain_schema()) {
                Err(status) => r == Err::<Action, Status>(status),
                Ok(items) => match fields::container(items, 0) {
                    Some(start) => if !allowed(ap.opt_out, cause_of(items, 1)) {
                        r == Err::<Action, Status>(Status::ConstraintError)
                    } else {
                        match fields::list_of::<ConstraintsStruct>(
                            data->Some_0,
                            start as int,
                            ADJUSTMENTS_MAX as int,
                            Status::ConstraintError,
                        ) {
                            Err(status) => r == Err::<Action, Status>(status),
                            Ok(constraints) => r matches Ok(Action::Constrain(list, cause)) && list@ == constraints
                                && cause == cause_of(items, 1),
                        }
                    },
                    None => r == Err::<Action, Status>(Status::InvalidCommand),
                },
            }
        }
    } else if command == CANCEL_REQUEST {
        if features & START_TIME_ADJUSTMENT == 0 && features & FORECAST_ADJUSTMENT == 0 && features
            & CONSTRAINT_BASED_ADJUSTMENT == 0 {
            r == Err::<Action, Status>(Status::UnsupportedCommand)
        } else if !(ap.forecast matches Some(f) && f.adjusted) {
            r == Err::<Action, Status>(Status::InvalidInState)
        } else {
            r == Ok::<Action, Status>(Action::CancelAdjustments)
        }
    } else {
        r == Err::<Action, Status>(Status::UnsupportedCommand)
    }
}

/// The reason that an adjustment for a cause gives.
pub open spec fn reason_for(cause: AdjustmentCauseEnum) -> PowerAdjustReasonEnum {
    match cause {
        AdjustmentCauseEnum::LocalOptimization => PowerAdjustReasonEnum::LocalOptimizationAdjustment,
        AdjustmentCauseEnum::GridOptimization => PowerAdjustReasonEnum::GridOptimizationAdjustment,
    }
}

/// What is running, and what happened, once the appliance has done what it was asked.
pub open spec fn settled(s: Session, action: Action, now: Instant) -> (Session, Option<Event>) {
    match action {
        Action::PowerAdjust(_, duration, cause) => (
            Session {
                adjust_reason: reason_for(cause),
                adjust_until: Some(platform::later(now, duration * 1_000_000)),
                ..s
            },
            if s.adjust_reason == PowerAdjustReasonEnum::NoAdjustment { Some(Event::PowerAdjustStart) } else { None },
        ),
        Action::CancelPowerAdjust => (
            Session { adjust_reason: PowerAdjustReasonEnum::NoAdjustment, adjust_until: None, ..s },
            Some(Event::PowerAdjustEnd(CauseEnum::Cancelled)),
        ),
        Action::Pause(duration, _) => match s.paused_until {
            Some(until) => (
                Session { paused_until: Some(platform::later(until, duration * 1_000_000)), ..s },
                None,
            ),
            None => (
                Session { paused_until: Some(platform::later(now, duration * 1_000_000)), ..s },
                Some(Event::Paused),
            ),
        },
        Action::Resume => (Session { paused_until: None, ..s }, Some(Event::Resumed(CauseEnum::Cancelled))),
        _ => (s, None),
    }
}

/// The records after something may have happened.
pub open spec fn recorded(events: Seq<Event>, event: Option<Event>) -> Seq<Event> {
    match event {
        Some(e) => bounded::newest(events, e, 8),
        None => events,
    }
}

/// What is running, what is on record and what the command is answered, for each verdict on it and
/// each way in which the appliance may have answered what it was asked.
pub open spec fn carried_out(
    s: Session,
    events: Seq<Event>,
    verdict: Result<Action, Status>,
    outcome: Result<(), Status>,
    now: Instant,
) -> (Session, Seq<Event>, InvokeAnswer) {
    match (verdict, outcome) {
        (Err(status), _) => (s, events, im::refused(status)),
        (Ok(_), Err(status)) => (s, events, im::refused(status)),
        (Ok(action), Ok(_)) => {
            let (session, event) = settled(s, action, now);
            (session, recorded(events, event), im::done())
        },
    }
}

/// Device Energy Management over one appliance.
pub struct DeviceEnergyManagement<'a, H: DemHooks> {
    /// The appliance, with what it was told.
    pub hooks: Recorded<'a, H>,
    /// The features.
    pub feature_map: u32,
    /// What is running.
    pub session: Session,
    /// What happened and was not taken yet.
    pub events: List<Event, 8>,
}

/// Whether an appliance was told that its adjustment ended, where it did, and else stays as it is.
pub open spec fn ended<'a, H: DemHooks>(after: Recorded<'a, H>, before: Recorded<'a, H>, ends: bool, cause: CauseEnum) -> bool {
    if ends {
        &&& call_ensures(H::end_power_adjust, (before.product(), cause), ())
        &&& after.called(&before, Call::Ended(cause))
    } else {
        after == before
    }
}

/// Whether an appliance was told that its pause is over, where it is, and else stays as it is.
pub open spec fn resumed<'a, H: DemHooks>(after: Recorded<'a, H>, before: Recorded<'a, H>, resumes: bool) -> bool {
    if resumes {
        exists|r: Result<(), Status>| #[trigger]
            call_ensures(H::resume, (before.product(),), r) && after.called(&before, Call::Resumed(r))
    } else {
        after == before
    }
}

/// Whether an appliance was told of the end of its adjustment and, after that, of its pause, where they
/// ended by time.
pub open spec fn timed_out<'a, H: DemHooks>(after: Recorded<'a, H>, before: Recorded<'a, H>, ends: bool, resumes: bool) -> bool {
    exists|told: Recorded<'a, H>| #[trigger]
        ended(told, before, ends, CauseEnum::NormalCompletion) && resumed(after, told, resumes)
}

/// The end of an adjustment, where one is running.
pub open spec fn finished(s: Session, events: Seq<Event>, cause: CauseEnum) -> (Session, Seq<Event>) {
    if s.adjust_reason == PowerAdjustReasonEnum::NoAdjustment {
        (s, events)
    } else {
        (
            Session { adjust_reason: PowerAdjustReasonEnum::NoAdjustment, adjust_until: None, ..s },
            bounded::newest(events, Event::PowerAdjustEnd(cause), 8),
        )
    }
}

/// Whether the time of something is up.
pub open spec fn due(until: Option<Instant>, now: Instant) -> bool {
    until matches Some(t) && now.micros >= t.micros
}

/// What a poll comes to: an adjustment and a pause whose time is up end.
pub open spec fn polled(s: Session, events: Seq<Event>, now: Instant) -> (Session, Seq<Event>) {
    let (after, told) = if due(s.adjust_until, now) {
        finished(s, events, CauseEnum::NormalCompletion)
    } else {
        (s, events)
    };
    if due(s.paused_until, now) {
        (
            Session { paused_until: None, ..after },
            bounded::newest(told, Event::Resumed(CauseEnum::NormalCompletion), 8),
        )
    } else {
        (after, told)
    }
}

impl<'a, H: DemHooks> DeviceEnergyManagement<'a, H> {
    /// Whether an adjustment is running.
    pub open spec fn adjusting(&self) -> bool {
        self.session.adjust_reason != PowerAdjustReasonEnum::NoAdjustment
    }

    /// The description for features and for what the product chooses.
    pub fn conforming(features: u32, optional: &Optional) -> (r: Result<Conforming, ErrorCode>)
        ensures
            conformance::outcome(r) == conformance::conform(defined(), features, optional@),
    {
        Conforming::new(&definition(), features, optional)
    }

    /// A cluster over an appliance, with nothing running.
    pub fn new(hooks: &'a H, feature_map: u32) -> (dem: Self)
        ensures
            dem.hooks.product() == hooks,
            dem.hooks.calls() == Seq::<Call>::empty(),
            dem.feature_map == feature_map,
            dem.session == (Session {
                adjust_reason: PowerAdjustReasonEnum::NoAdjustment,
                adjust_until: None,
                paused_until: None,
            }),
            dem.events@ == Seq::<Event>::empty(),
    {
        DeviceEnergyManagement {
            hooks: Recorded::new(hooks),
            feature_map,
            session: Session {
                adjust_reason: PowerAdjustReasonEnum::NoAdjustment,
                adjust_until: None,
                paused_until: None,
            },
            events: List::new(),
        }
    }

    /// `ESAState`, given the appliance's own state.
    pub fn state_over(&self, base: ESAStateEnum) -> (s: ESAStateEnum)
        ensures
            s == reported(base, self.session),
    {
        if base != ESAStateEnum::Online {
            return base;
        }
        if self.session.paused_until.is_some() {
            return ESAStateEnum::Paused;
        }
        if self.session.adjust_reason != PowerAdjustReasonEnum::NoAdjustment {
            return ESAStateEnum::PowerAdjustActive;
        }
        ESAStateEnum::Online
    }

    /// `ESAState`.
    pub fn state(&self) -> (s: ESAStateEnum)
        ensures
            exists|base: ESAStateEnum| #[trigger]
                call_ensures(H::base_state, (self.hooks.product(),), base) && s == reported(base, self.session),
    {
        let base: ESAStateEnum = self.hooks.base_state();
        self.state_over(base)
    }

    /// Why a power adjustment is running, or that none is.
    pub fn adjust_reason(&self) -> (r: PowerAdjustReasonEnum)
        ensures
            r == self.session.adjust_reason,
    {
        self.session.adjust_reason
    }

    /// When [`DeviceEnergyManagement::poll`] next has something to do: at the earlier of the two ends.
    pub fn wake_at(&self) -> (t: Option<Instant>)
        ensures
            t == (match (self.session.adjust_until, self.session.paused_until) {
                (Some(a), Some(p)) => Some(if a.micros < p.micros { a } else { p }),
                (Some(a), None) => Some(a),
                (None, p) => p,
            }),
    {
        match (self.session.adjust_until, self.session.paused_until) {
            (Some(a), Some(p)) => Some(if a.micros < p.micros { a } else { p }),
            (Some(a), None) => Some(a),
            (None, p) => p,
        }
    }

    /// Ends an adjustment or a pause whose time is up.
    pub fn poll(&mut self, now: Instant)
        ensures
            (final(self).session, final(self).events@) == polled(old(self).session, old(self).events@, now),
            final(self).feature_map == old(self).feature_map,
            timed_out(
                final(self).hooks,
                old(self).hooks,
                due(old(self).session.adjust_until, now) && old(self).adjusting(),
                due(old(self).session.paused_until, now),
            ),
    {
        if let Some(until) = self.session.adjust_until {
            if now.micros >= until.micros {
                self.finish_adjust(CauseEnum::NormalCompletion);
            }
        }
        let ghost ends = due(old(self).session.adjust_until, now) && old(self).adjusting();
        let ghost resumes = due(old(self).session.paused_until, now);
        let ghost told = self.hooks;
        assert(ended(told, old(self).hooks, ends, CauseEnum::NormalCompletion));
        if let Some(until) = self.session.paused_until {
            if now.micros >= until.micros {
                self.session.paused_until = None;
                let r: Result<(), Status> = self.hooks.resume();
                assert(call_ensures(H::resume, (told.product(),), r));
                self.events.push_newest(Event::Resumed(CauseEnum::NormalCompletion));
            }
        }
        assert(resumed(self.hooks, told, resumes));
        assert(timed_out(self.hooks, old(self).hooks, ends, resumes));
    }

    /// The householder changed their mind, or the appliance failed: whatever is running ends.
    pub fn abort(&mut self, cause: CauseEnum)
        ensures
            ({
                let paused = old(self).session.paused_until is Some;
                let events = if paused {
                    bounded::newest(old(self).events@, Event::Resumed(cause), 8)
                } else {
                    old(self).events@
                };
                let end = finished(Session { paused_until: None, ..old(self).session }, events, cause);
                &&& final(self).session == end.0
                &&& final(self).events@ == end.1
                &&& final(self).feature_map == old(self).feature_map
                &&& ended(final(self).hooks, old(self).hooks, old(self).adjusting(), cause)
            }),
    {
        if self.session.paused_until.is_some() {
            self.session.paused_until = None;
            self.events.push_newest(Event::Resumed(cause));
        }
        self.finish_adjust(cause);
    }

    /// Takes the records that were collected.
    pub fn take_events(&mut self) -> (events: Vec<Event>)
        ensures
            events@ == old(self).events@,
            final(self).events@ == Seq::<Event>::empty(),
            final(self).session == old(self).session,
            final(self).feature_map == old(self).feature_map,
            final(self).hooks == old(self).hooks,
    {
        self.events.take()
    }

    fn finish_adjust(&mut self, cause: CauseEnum)
        ensures
            (final(self).session, final(self).events@) == finished(old(self).session, old(self).events@, cause),
            final(self).feature_map == old(self).feature_map,
            ended(final(self).hooks, old(self).hooks, old(self).adjusting(), cause),
    {
        if self.session.adjust_reason == PowerAdjustReasonEnum::NoAdjustment {
            return ;
        }
        self.session.adjust_reason = PowerAdjustReasonEnum::NoAdjustment;
        self.session.adjust_until = None;
        self.hooks.end_power_adjust(cause);
        self.events.push_newest(Event::PowerAdjustEnd(cause));
    }

    fn permits(opt_out: OptOutStateEnum, cause: AdjustmentCauseEnum) -> (r: bool)
        ensures
            r == allowed(opt_out, cause),
    {
        match opt_out {
            OptOutStateEnum::NoOptOut => true,
            OptOutStateEnum::OptOut => false,
            OptOutStateEnum::LocalOptOut => cause != AdjustmentCauseEnum::LocalOptimization,
            OptOutStateEnum::GridOptOut => cause != AdjustmentCauseEnum::GridOptimization,
        }
    }

    fn offers(ranges: &Vec<PowerAdjustStruct>, power: i64, duration: u32) -> (r: bool)
        ensures
            r == on_offer(ranges@, power, duration),
    {
        let mut i: usize = 0;
        while i < ranges.len()
            invariant
                i <= ranges@.len(),
                forall|j: int| 0 <= j < i ==> !(#[trigger] ranges@[j]).holds(power, duration),
            decreases ranges.len() - i,
        {
            let range: PowerAdjustStruct = ranges[i];
            if power >= range.min_power && power <= range.max_power && duration >= range.min_duration && duration
                <= range.max_duration {
                proof {
                    assert(ranges@[i as int].holds(power, duration));
                }
                return true;
            }
            i = i + 1;
        }
        false
    }

    /// What a command comes to, given what the appliance says.
    pub fn decide(&self, command: CommandId, data: Option<&[u8]>, ap: &Appliance) -> (r: Result<Action, Status>)
        ensures
            decided(self.feature_map, self.session, command, im::octets(data), *ap, r),
    {
        match command {
            POWER_ADJUST_REQUEST => self.decide_power_adjust(data, ap),
            CANCEL_POWER_ADJUST_REQUEST => {
                if self.feature_map & POWER_ADJUSTMENT == 0 {
                    Err(Status::UnsupportedCommand)
                } else if self.session.adjust_reason == PowerAdjustReasonEnum::NoAdjustment {
                    Err(Status::InvalidInState)
                } else {
                    Ok(Action::CancelPowerAdjust)
                }
            },
            START_TIME_ADJUST_REQUEST => self.decide_start(data, ap),
            PAUSE_REQUEST => self.decide_pause(data, ap),
            RESUME_REQUEST => {
                if self.feature_map & PAUSABLE == 0 {
                    Err(Status::UnsupportedCommand)
                } else if self.session.paused_until.is_none() {
                    Err(Status::InvalidInState)
                } else {
                    Ok(Action::Resume)
                }
            },
            MODIFY_FORECAST_REQUEST => self.decide_modify(data, ap),
            REQUEST_CONSTRAINT_BASED_FORECAST => self.decide_constrain(data, ap),
            CANCEL_REQUEST => {
                if self.feature_map & START_TIME_ADJUSTMENT == 0 && self.feature_map & FORECAST_ADJUSTMENT == 0
                    && self.feature_map & CONSTRAINT_BASED_ADJUSTMENT == 0 {
                    return Err(Status::UnsupportedCommand);
                }
                let adjusted: bool = match ap.forecast {
                    Some(f) => f.adjusted,
                    None => false,
                };
                if !adjusted {
                    Err(Status::InvalidInState)
                } else {
                    Ok(Action::CancelAdjustments)
                }
            },
            _ => Err(Status::UnsupportedCommand),
        }
    }

    fn decide_power_adjust(&self, data: Option<&[u8]>, ap: &Appliance) -> (r: Result<Action, Status>)
        ensures
            decided(self.feature_map, self.session, POWER_ADJUST_REQUEST, im::octets(data), *ap, r),
    {
        if self.feature_map & POWER_ADJUSTMENT == 0 {
            return Err(Status::UnsupportedCommand);
        }
        let schema: Vec<Field> = vec![
            Field(0, Kind::I64, Need::Required),
            Field(1, Kind::U32, Need::Required),
            Field(2, Kind::Enum(1), Need::Required),
        ];
        proof {
            assert(schema@ =~= power_adjust_schema());
        }
        let f: Fields = match fields::read_some(data, &schema) {
            Err(status) => return Err(status),
            Ok(f) => f,
        };
        match (f.int64(0), f.num32(1)) {
            (Some(power), Some(duration)) => {
                let cause: AdjustmentCauseEnum = cause_in(&f, 2);
                if !Self::permits(ap.opt_out, cause) {
                    return Err(Status::ConstraintError);
                }
                if ap.base_state != ESAStateEnum::Online {
                    return Err(Status::Failure);
                }
                if !Self::offers(&ap.ranges, power, duration) {
                    return Err(Status::ConstraintError);
                }
                if self.session.adjust_reason != PowerAdjustReasonEnum::NoAdjustment && !ap.may_interrupt {
                    return Err(Status::Busy);
                }
                Ok(Action::PowerAdjust(power, duration, cause))
            },
            _ => Err(Status::InvalidCommand),
        }
    }

    fn decide_start(&self, data: Option<&[u8]>, ap: &Appliance) -> (r: Result<Action, Status>)
        ensures
            decided(self.feature_map, self.session, START_TIME_ADJUST_REQUEST, im::octets(data), *ap, r),
    {
        if self.feature_map & START_TIME_ADJUSTMENT == 0 {
            return Err(Status::UnsupportedCommand);
        }
        let schema: Vec<Field> = vec![Field(0, Kind::U32, Need::Required), Field(1, Kind::Enum(1), Need::Required)];
        proof {
            assert(schema@ =~= timed_schema());
        }
        let f: Fields = match fields::read_some(data, &schema) {
            Err(status) => return Err(status),
            Ok(f) => f,
        };
        match f.num32(0) {
            Some(start) => {
                let cause: AdjustmentCauseEnum = cause_in(&f, 1);
                if !Self::permits(ap.opt_out, cause) {
                    return Err(Status::ConstraintError);
                }
                match ap.forecast {
                    None => Err(Status::Failure),
                    Some(plan) => {
                        let span: u32 = if plan.end_time >= plan.start_time {
                            plan.end_time - plan.start_time
                        } else {
                            0
                        };
                        let new_end: u32 = start.saturating_add(span);
                        let too_early: bool = match plan.earliest_start_time {
                            Some(earliest) => start < earliest,
                            None => false,
                        };
                        let too_late: bool = match plan.latest_end_time {
                            Some(latest) => new_end > latest,
                            None => false,
                        };
                        if too_early || too_late {
                            Err(Status::ConstraintError)
                        } else {
                            Ok(Action::AdjustStart(start, cause))
                        }
                    },
                }
            },
            None => Err(Status::InvalidCommand),
        }
    }

    fn decide_pause(&self, data: Option<&[u8]>, ap: &Appliance) -> (r: Result<Action, Status>)
        ensures
            decided(self.feature_map, self.session, PAUSE_REQUEST, im::octets(data), *ap, r),
    {
        if self.feature_map & PAUSABLE == 0 {
            return Err(Status::UnsupportedCommand);
        }
        let schema: Vec<Field> = vec![Field(0, Kind::U32, Need::Required), Field(1, Kind::Enum(1), Need::Required)];
        proof {
            assert(schema@ =~= timed_schema());
        }
        let f: Fields = match fields::read_some(data, &schema) {
            Err(status) => return Err(status),
            Ok(f) => f,
        };
        match f.num32(0) {
            Some(duration) => {
                let cause: AdjustmentCauseEnum = cause_in(&f, 1);
                if !Self::permits(ap.opt_out, cause) {
                    return Err(Status::ConstraintError);
                }
                match ap.forecast {
                    None => Err(Status::Failure),
                    Some(plan) => {
                        if !plan.slot_is_pausable {
                            return Err(Status::Failure);
                        }
                        if duration < plan.min_pause_duration || duration > plan.max_pause_duration {
                            return Err(Status::ConstraintError);
                        }
                        match self.state_over(ap.base_state) {
                            ESAStateEnum::Offline | ESAStateEnum::Fault => Err(Status::Failure),
                            _ => Ok(Action::Pause(duration, cause)),
                        }
                    },
                }
            },
            None => Err(Status::InvalidCommand),
        }
    }

    fn decide_modify(&self, data: Option<&[u8]>, ap: &Appliance) -> (r: Result<Action, Status>)
        ensures
            decided(self.feature_map, self.session, MODIFY_FORECAST_REQUEST, im::octets(data), *ap, r),
    {
        if self.feature_map & FORECAST_ADJUSTMENT == 0 {
            return Err(Status::UnsupportedCommand);
        }
        let schema: Vec<Field> = vec![
            Field(0, Kind::U32, Need::Required),
            Field(1, Kind::Array, Need::Required),
            Field(2, Kind::Enum(1), Need::Required),
        ];
        proof {
            assert(schema@ =~= modify_schema());
        }
        let f: Fields = match fields::read_some(data, &schema) {
            Err(status) => return Err(status),
            Ok(f) => f,
        };
        match (f.num32(0), f.container(1)) {
            (Some(id), Some(start)) => {
                let cause: AdjustmentCauseEnum = cause_in(&f, 2);
                if !Self::permits(ap.opt_out, cause) {
                    return Err(Status::ConstraintError);
                }
                let slots: Vec<SlotAdjustmentStruct> = match fields::read_list::<SlotAdjustmentStruct>(
                    f.data,
                    start,
                    ADJUSTMENTS_MAX,
                    Status::ConstraintError,
                ) {
                    Err(status) => return Err(status),
                    Ok(slots) => slots,
                };
                match ap.forecast {
                    None => Err(Status::Failure),
                    Some(plan) => if plan.forecast_id != id {
                        Err(Status::Failure)
                    } else {
                        Ok(Action::ModifyForecast(slots, cause))
                    },
                }
            },
            _ => Err(Status::InvalidCommand),
        }
    }

    fn decide_constrain(&self, data: Option<&[u8]>, ap: &Appliance) -> (r: Result<Action, Status>)
        ensures
            decided(self.feature_map, self.session, REQUEST_CONSTRAINT_BASED_FORECAST, im::octets(data), *ap, r),
    {
        if self.feature_map & CONSTRAINT_BASED_ADJUSTMENT == 0 {
            return Err(Status::UnsupportedCommand);
        }
        let schema: Vec<Field> = vec![Field(0, Kind::Array, Need::Required), Field(1, Kind::Enum(1), Need::Required)];
        proof {
            assert(schema@ =~= constrain_schema());
        }
        let f: Fields = match fields::read_some(data, &schema) {
            Err(status) => return Err(status),
            Ok(f) => f,
        };
        match f.container(0) {
            Some(start) => {
                let cause: AdjustmentCauseEnum = cause_in(&f, 1);
                if !Self::permits(ap.opt_out, cause) {
                    return Err(Status::ConstraintError);
                }
                match fields::read_list::<ConstraintsStruct>(f.data, start, ADJUSTMENTS_MAX, Status::ConstraintError) {
                    Err(status) => Err(status),
                    Ok(constraints) => Ok(Action::Constrain(constraints, cause)),
                }
            },
            None => Err(Status::InvalidCommand),
        }
    }

    /// Records how the appliance answered what it was asked to do; where it refused, nothing
    /// changes and its status is the command's.
    pub fn settle(&mut self, action: &Action, outcome: Result<(), Status>, now: Instant) -> (a: Result<Reply, StatusIb>)
        ensures
            final(self).feature_map == old(self).feature_map,
            final(self).hooks == old(self).hooks,
            match outcome {
                Ok(_) => {
                    let (session, event) = settled(old(self).session, *action, now);
                    &&& im::invoke_answer(a) == im::done()
                    &&& final(self).session == session
                    &&& final(self).events@ == recorded(old(self).events@, event)
                },
                Err(status) => {
                    &&& im::invoke_answer(a) == im::refused(status)
                    &&& final(self).session == old(self).session
                    &&& final(self).events@ == old(self).events@
                },
            },
    {
        if let Err(status) = outcome {
            return im::refuse(status);
        }
        match action {
            Action::PowerAdjust(_, duration, cause) => {
                let running: bool = self.session.adjust_reason != PowerAdjustReasonEnum::NoAdjustment;
                self.session.adjust_reason = match cause {
                    AdjustmentCauseEnum::LocalOptimization => PowerAdjustReasonEnum::LocalOptimizationAdjustment,
                    AdjustmentCauseEnum::GridOptimization => PowerAdjustReasonEnum::GridOptimizationAdjustment,
                };
                self.session.adjust_until = Some(now.saturating_add(Duration::from_secs(*duration)));
                if !running {
                    self.events.push_newest(Event::PowerAdjustStart);
                }
            },
            Action::CancelPowerAdjust => {
                self.session.adjust_reason = PowerAdjustReasonEnum::NoAdjustment;
                self.session.adjust_until = None;
                self.events.push_newest(Event::PowerAdjustEnd(CauseEnum::Cancelled));
            },
            Action::Pause(duration, _) => {
                let extra: Duration = Duration::from_secs(*duration);
                match self.session.paused_until {
                    Some(until) => {
                        self.session.paused_until = Some(until.saturating_add(extra));
                    },
                    None => {
                        self.session.paused_until = Some(now.saturating_add(extra));
                        self.events.push_newest(Event::Paused);
                    },
                }
            },
            Action::Resume => {
                self.session.paused_until = None;
                self.events.push_newest(Event::Resumed(CauseEnum::Cancelled));
            },
            _ => {},
        }
        im::no_response()
    }
}

/// The `PowerAdjustmentCapability` attribute for ranges on offer and a reason: null where nothing
/// is on offer.
pub open spec fn capability_bytes(ranges: Seq<PowerAdjustStruct>, reason: PowerAdjustReasonEnum, tag: Tag) -> Seq<u8> {
    if ranges.len() == 0 {
        tlv::null_bytes(tag)
    } else {
        tlv::structure_bytes(
            tag,
            tlv::array_bytes(Tag::Context(0), tlv::concat(ranges, |r: PowerAdjustStruct| r.encoded()))
                + tlv::unsigned_bytes(Tag::Context(1), reason_value(reason) as u64),
        )
    }
}

/// Encodes the `PowerAdjustmentCapability` attribute.
pub fn capability(ranges: &Vec<PowerAdjustStruct>, reason: PowerAdjustReasonEnum, tag: Tag) -> (out: Vec<u8>)
    ensures
        out@ == capability_bytes(ranges@, reason, tag),
{
    let mut out: Vec<u8> = Vec::new();
    if ranges.len() == 0 {
        tlv::put_null(&mut out, tag);
        proof {
            assert(out@ =~= tlv::null_bytes(tag));
        }
        return out;
    }
    let ghost f = |r: PowerAdjustStruct| r.encoded();
    let mut items: Vec<u8> = Vec::new();
    let mut i: usize = 0;
    proof {
        assert(ranges@.take(0) =~= Seq::<PowerAdjustStruct>::empty());
    }
    while i < ranges.len()
        invariant
            i <= ranges@.len(),
            f == (|r: PowerAdjustStruct| r.encoded()),
            items@ == tlv::concat(ranges@.take(i as int), f),
        decreases ranges.len() - i,
    {
        ranges[i].encode(&mut items);
        proof {
            tlv::lemma_concat_take(ranges@, i as int, f);
        }
        i = i + 1;
    }
    proof {
        assert(ranges@.take(i as int) =~= ranges@);
    }
    let mut body: Vec<u8> = Vec::new();
    tlv::put_array(&mut body, Tag::Context(0), &items);
    tlv::put_unsigned(&mut body, Tag::Context(1), reason.value() as u64);
    let ghost array = tlv::array_bytes(Tag::Context(0), items@);
    proof {
        assert(Seq::<u8>::empty() + array =~= array);
    }
    tlv::put_structure(&mut out, tag, &body);
    proof {
        assert(out@ =~= tlv::structure_bytes(tag, body@));
    }
    out
}

/// What a read is answered with, given what the appliance says of itself.
pub open spec fn attribute_answered(
    s: Session,
    attribute: AttributeId,
    tag: Tag,
    esa_type: ESATypeEnum,
    can_generate: bool,
    abs_min: i64,
    abs_max: i64,
    forecast: Seq<u8>,
    ap: Appliance,
) -> ReadAnswer {
    if attribute == ESA_TYPE {
        Ok(tlv::unsigned_bytes(tag, type_value(esa_type) as u64))
    } else if attribute == ESA_CAN_GENERATE {
        Ok(tlv::bool_bytes(tag, can_generate))
    } else if attribute == ESA_STATE {
        Ok(tlv::unsigned_bytes(tag, state_value(reported(ap.base_state, s)) as u64))
    } else if attribute == ABS_MIN_POWER {
        Ok(tlv::signed_bytes(tag, abs_min))
    } else if attribute == ABS_MAX_POWER {
        Ok(tlv::signed_bytes(tag, abs_max))
    } else if attribute == POWER_ADJUSTMENT_CAPABILITY {
        Ok(capability_bytes(ap.ranges@, s.adjust_reason, tag))
    } else if attribute == FORECAST {
        Ok(forecast)
    } else if attribute == OPT_OUT_STATE {
        Ok(tlv::unsigned_bytes(tag, opt_out_value(ap.opt_out) as u64))
    } else {
        Err(Status::UnsupportedAttribute)
    }
}

/// The cluster's definition.
pub open spec fn defined() -> DefinitionModel {
    DefinitionModel {
        id: ID,
        revision: REVISION,
        features: 0x7F,
        attributes: seq![
            conformance::reads(ESA_TYPE, Conformance::Mandatory),
            conformance::reads(ESA_CAN_GENERATE, Conformance::Mandatory),
            conformance::reads(ESA_STATE, Conformance::Mandatory),
            conformance::reads(ABS_MIN_POWER, Conformance::Mandatory),
            conformance::reads(ABS_MAX_POWER, Conformance::Mandatory),
            conformance::reads(POWER_ADJUSTMENT_CAPABILITY, Conformance::With(POWER_ADJUSTMENT)),
            conformance::reads(FORECAST, Conformance::With(0x06)),
            conformance::reads(OPT_OUT_STATE, Conformance::With(0x79)),
        ],
        commands: seq![
            conformance::invokes(POWER_ADJUST_REQUEST, Privilege::Operate, None, Conformance::With(POWER_ADJUSTMENT)),
            conformance::invokes(CANCEL_POWER_ADJUST_REQUEST, Privilege::Operate, None, Conformance::With(POWER_ADJUSTMENT)),
            conformance::invokes(
                START_TIME_ADJUST_REQUEST,
                Privilege::Operate,
                None,
                Conformance::With(START_TIME_ADJUSTMENT),
            ),
            conformance::invokes(PAUSE_REQUEST, Privilege::Operate, None, Conformance::With(PAUSABLE)),
            conformance::invokes(RESUME_REQUEST, Privilege::Operate, None, Conformance::With(PAUSABLE)),
            conformance::invokes(MODIFY_FORECAST_REQUEST, Privilege::Operate, None, Conformance::With(FORECAST_ADJUSTMENT)),
            conformance::invokes(
                REQUEST_CONSTRAINT_BASED_FORECAST,
                Privilege::Operate,
                None,
                Conformance::With(CONSTRAINT_BASED_ADJUSTMENT),
            ),
            conformance::invokes(CANCEL_REQUEST, Privilege::Operate, None, Conformance::With(0x68)),
        ],
        generated: Seq::empty(),
        events: seq![
            conformance::tells(POWER_ADJUST_START, EventPriority::Info, Conformance::With(POWER_ADJUSTMENT)),
            conformance::tells(POWER_ADJUST_END, EventPriority::Info, Conformance::With(POWER_ADJUSTMENT)),
            conformance::tells(PAUSED, EventPriority::Info, Conformance::With(PAUSABLE)),
            conformance::tells(RESUMED, EventPriority::Info, Conformance::With(PAUSABLE)),
        ],
    }
}

/// The cluster's definition.
pub fn definition() -> (d: Definition)
    ensures
        d@ == defined(),
{
    let d: Definition = Definition {
        id: ID,
        revision: REVISION,
        features: 0x7F,
        attributes: vec![
            conformance::readable(ESA_TYPE, Conformance::Mandatory),
            conformance::readable(ESA_CAN_GENERATE, Conformance::Mandatory),
            conformance::readable(ESA_STATE, Conformance::Mandatory),
            conformance::readable(ABS_MIN_POWER, Conformance::Mandatory),
            conformance::readable(ABS_MAX_POWER, Conformance::Mandatory),
            conformance::readable(POWER_ADJUSTMENT_CAPABILITY, Conformance::With(POWER_ADJUSTMENT)),
            conformance::readable(FORECAST, Conformance::With(0x06)),
            conformance::readable(OPT_OUT_STATE, Conformance::With(0x79)),
        ],
        commands: vec![
            conformance::invocable(POWER_ADJUST_REQUEST, Privilege::Operate, None, Conformance::With(POWER_ADJUSTMENT)),
            conformance::invocable(
                CANCEL_POWER_ADJUST_REQUEST,
                Privilege::Operate,
                None,
                Conformance::With(POWER_ADJUSTMENT),
            ),
            conformance::invocable(
                START_TIME_ADJUST_REQUEST,
                Privilege::Operate,
                None,
                Conformance::With(START_TIME_ADJUSTMENT),
            ),
            conformance::invocable(PAUSE_REQUEST, Privilege::Operate, None, Conformance::With(PAUSABLE)),
            conformance::invocable(RESUME_REQUEST, Privilege::Operate, None, Conformance::With(PAUSABLE)),
            conformance::invocable(
                MODIFY_FORECAST_REQUEST,
                Privilege::Operate,
                None,
                Conformance::With(FORECAST_ADJUSTMENT),
            ),
            conformance::invocable(
                REQUEST_CONSTRAINT_BASED_FORECAST,
                Privilege::Operate,
                None,
                Conformance::With(CONSTRAINT_BASED_ADJUSTMENT),
            ),
            conformance::invocable(CANCEL_REQUEST, Privilege::Operate, None, Conformance::With(0x68)),
        ],
        generated: Vec::new(),
        events: vec![
            conformance::event(POWER_ADJUST_START, EventPriority::Info, Conformance::With(POWER_ADJUSTMENT)),
            conformance::event(POWER_ADJUST_END, EventPriority::Info, Conformance::With(POWER_ADJUSTMENT)),
            conformance::event(PAUSED, EventPriority::Info, Conformance::With(PAUSABLE)),
            conformance::event(RESUMED, EventPriority::Info, Conformance::With(PAUSABLE)),
        ],
    };
    proof {
        assert(d@.attributes =~= defined().attributes);
        assert(d@.commands =~= defined().commands);
        assert(d@.events =~= defined().events);
    }
    d
}

impl<'a, H: DemHooks> Cluster for DeviceEnergyManagement<'a, H> {
    const ID: ClusterId = ID;
}

impl<'a, H: DemHooks> ClusterHandler for DeviceEnergyManagement<'a, H> {
    open spec fn answers(&self, resolved: Resolved, ctx: InteractionContext, tag: Tag, a: ReadAnswer) -> bool {
        exists|t: ESATypeEnum, g: bool, lo: i64, hi: i64, forecast: Vec<u8>, ap: Appliance|
            {
                &&& call_ensures(H::esa_type, (self.hooks.product(),), t)
                &&& call_ensures(H::can_generate, (self.hooks.product(),), g)
                &&& call_ensures(H::abs_min_power, (self.hooks.product(),), lo)
                &&& call_ensures(H::abs_max_power, (self.hooks.product(),), hi)
                &&& call_ensures(H::write_forecast, (self.hooks.product(), tag), forecast)
                &&& self.hooks.says(ap)
                &&& a == #[trigger] attribute_answered(self.session, resolved.attribute, tag, t, g, lo, hi, forecast@, ap)
            }
    }

    open spec fn writes(
        before: &Self,
        after: &Self,
        resolved: Resolved,
        data: Seq<u8>,
        op: WriteOp,
        ctx: InteractionContext,
        r: Result<(), Status>,
    ) -> bool {
        *after == *before && r == Err::<(), Status>(Status::UnsupportedWrite)
    }

    open spec fn invokes(
        before: &Self,
        after: &Self,
        resolved: ResolvedCommand,
        fields: Option<Seq<u8>>,
        ctx: InteractionContext,
        tag: Tag,
        a: InvokeAnswer,
    ) -> bool {
        after.feature_map == before.feature_map && exists|
            ap: Appliance,
            verdict: Result<Action, Status>,
            outcome: Result<(), Status>,
        |
            {
                &&& before.hooks.says(ap)
                &&& match verdict {
                    Ok(action) => before.hooks.does(action, outcome) && after.hooks.called(
                        &before.hooks,
                        Call::Act(action, outcome),
                    ),
                    Err(_) => after.hooks == before.hooks,
                }
                &&& #[trigger] decided(before.feature_map, before.session, resolved.command, fields, ap, verdict)
                &&& #[trigger] carried_out(before.session, before.events@, verdict, outcome, ctx.now) == (
                    after.session,
                    after.events@,
                    a,
                )
            }
    }

    open spec fn outlives(before: &Self, after: &Self, event: Lifecycle) -> bool {
        *after == *before
    }

    open spec fn unfit(&self, resolved: ResolvedCommand) -> Status {
        Status::Failure
    }

    fn answer(&self, resolved: &Resolved, ctx: &InteractionContext, tag: Tag) -> (a: Result<Vec<u8>, Status>) {
        let ap: Appliance = self.hooks.ask();
        let esa_type: ESATypeEnum = self.hooks.esa_type();
        let can_generate: bool = self.hooks.can_generate();
        let abs_min: i64 = self.hooks.abs_min_power();
        let abs_max: i64 = self.hooks.abs_max_power();
        let forecast: Vec<u8> = self.hooks.write_forecast(tag);
        let ghost expected = attribute_answered(
            self.session,
            resolved.attribute,
            tag,
            esa_type,
            can_generate,
            abs_min,
            abs_max,
            forecast@,
            ap,
        );
        let mut out: Vec<u8> = Vec::new();
        let r: Result<Vec<u8>, Status> = match resolved.attribute {
            ESA_TYPE => {
                tlv::put_unsigned(&mut out, tag, esa_type.value() as u64);
                Ok(out)
            },
            ESA_CAN_GENERATE => {
                tlv::put_bool(&mut out, tag, can_generate);
                Ok(out)
            },
            ESA_STATE => {
                tlv::put_unsigned(&mut out, tag, self.state_over(ap.base_state).value() as u64);
                Ok(out)
            },
            ABS_MIN_POWER => {
                tlv::put_signed(&mut out, tag, abs_min);
                Ok(out)
            },
            ABS_MAX_POWER => {
                tlv::put_signed(&mut out, tag, abs_max);
                Ok(out)
            },
            POWER_ADJUSTMENT_CAPABILITY => Ok(capability(&ap.ranges, self.session.adjust_reason, tag)),
            FORECAST => Ok(forecast),
            OPT_OUT_STATE => {
                tlv::put_unsigned(&mut out, tag, ap.opt_out.value() as u64);
                Ok(out)
            },
            _ => Err(Status::UnsupportedAttribute),
        };
        proof {
            if r is Ok {
                assert(r->Ok_0@ =~= expected->Ok_0);
            }
            assert(im::read_answer(r) == expected);
        }
        r
    }

    fn write(&mut self, resolved: &Resolved, data: &[u8], op: WriteOp, ctx: &InteractionContext) -> (r: Result<(), Status>) {
        Err(Status::UnsupportedWrite)
    }

    fn perform(
        &mut self,
        resolved: &ResolvedCommand,
        fields: Option<&[u8]>,
        ctx: &InteractionContext,
        tag: Tag,
    ) -> (a: Result<Reply, StatusIb>) {
        let ap: Appliance = self.hooks.ask();
        let verdict: Result<Action, Status> = self.decide(resolved.command, fields, &ap);
        match verdict {
            Err(status) => {
                proof {
                    assert(decided(self.feature_map, self.session, resolved.command, im::octets(fields), ap, verdict));
                    let c = carried_out(self.session, self.events@, verdict, Ok(()), ctx.now);
                }
                im::refuse(status)
            },
            Ok(action) => {
                let ghost verdict = Ok::<Action, Status>(action);
                proof {
                    assert(decided(self.feature_map, self.session, resolved.command, im::octets(fields), ap, verdict));
                }
                proof {
                    lemma_decided_is_warranted(self.feature_map, self.session, resolved.command, im::octets(fields), ap, action);
                }
                let outcome: Result<(), Status> = self.hooks.act(&ap, &action);
                proof {
                    let c = carried_out(self.session, self.events@, verdict, outcome, ctx.now);
                }
                self.settle(&action, outcome, ctx.now)
            },
        }
    }

    fn on_lifecycle(&mut self, event: Lifecycle) {
    }

    fn unfit_status(&self, resolved: &ResolvedCommand) -> (s: Status) {
        Status::Failure
    }
}

/// What a command has the appliance asked is warranted by what the appliance says.
proof fn lemma_decided_is_warranted(
    features: u32,
    s: Session,
    command: CommandId,
    data: Option<Seq<u8>>,
    ap: Appliance,
    action: Action,
)
    requires
        decided(features, s, command, data, ap, Ok(action)),
    ensures
        warranted(ap, action),
{
    if command == MODIFY_FORECAST_REQUEST {
        let items = fields::decode_some(data, modify_schema())->Ok_0;
        fields::law_a_list_keeps_to_its_room::<SlotAdjustmentStruct>(
            data->Some_0,
            fields::container(items, 1)->Some_0 as int,
            ADJUSTMENTS_MAX as int,
            Status::ConstraintError,
        );
    } else if command == REQUEST_CONSTRAINT_BASED_FORECAST {
        let items = fields::decode_some(data, constrain_schema())->Ok_0;
        fields::law_a_list_keeps_to_its_room::<ConstraintsStruct>(
            data->Some_0,
            fields::container(items, 0)->Some_0 as int,
            ADJUSTMENTS_MAX as int,
            Status::ConstraintError,
        );
    }
}

/// A householder's full opt-out refuses every adjustment, and one for a cause refuses that cause.
pub proof fn law_opt_out_is_a_veto(
    s: Session,
    ap: Appliance,
    power: i64,
    duration: u32,
    start: u32,
    cause: AdjustmentCauseEnum,
)
    requires
        ap.opt_out is OptOut || (ap.opt_out is LocalOptOut && cause is LocalOptimization) || (ap.opt_out is GridOptOut
            && cause is GridOptimization),
    ensures
        power_adjust_verdict(s, ap, power, duration, cause) == Some(Status::ConstraintError),
        start_verdict(ap, start, cause) == Some(Status::ConstraintError),
        pause_verdict(s, ap, duration, cause) == Some(Status::ConstraintError),
{
}

/// A fault or an absence of the appliance shows through a pause and an adjustment.
pub proof fn law_a_fault_is_never_hidden(s: Session, base: ESAStateEnum)
    requires
        base is Fault || base is Offline,
    ensures
        reported(base, s) == base,
{
}

/// A pause that is asked for while one runs makes it longer, and starts no new one.
pub proof fn law_a_second_pause_extends_the_first(
    s: Session,
    duration: u32,
    cause: AdjustmentCauseEnum,
    now: Instant,
    until: Instant,
)
    requires
        s.paused_until == Some(until),
    ensures
        ({
            let (after, event) = settled(s, Action::Pause(duration, cause), now);
            event is None && after.paused_until is Some && after.paused_until->Some_0.micros >= until.micros
        }),
{
}

/// Whatever an appliance is asked to do, the householder's opt-out allows its cause.
pub proof fn law_nothing_is_asked_against_the_opt_out(
    features: u32,
    s: Session,
    command: CommandId,
    data: Option<Seq<u8>>,
    ap: Appliance,
    r: Result<Action, Status>,
)
    requires
        decided(features, s, command, data, ap, r),
    ensures
        match r {
            Ok(Action::PowerAdjust(_, _, cause)) => allowed(ap.opt_out, cause),
            Ok(Action::AdjustStart(_, cause)) => allowed(ap.opt_out, cause),
            Ok(Action::Pause(_, cause)) => allowed(ap.opt_out, cause),
            Ok(Action::ModifyForecast(_, cause)) => allowed(ap.opt_out, cause),
            Ok(Action::Constrain(_, cause)) => allowed(ap.opt_out, cause),
            _ => true,
        },
{
}

/// An adjustment that takes another's place is no end of it, and no new start.
pub proof fn law_a_replaced_adjustment_has_no_end(
    s: Session,
    power: i64,
    duration: u32,
    cause: AdjustmentCauseEnum,
    now: Instant,
)
    requires
        s.adjust_reason != PowerAdjustReasonEnum::NoAdjustment,
    ensures
        settled(s, Action::PowerAdjust(power, duration, cause), now) == (
            Session {
                adjust_reason: reason_for(cause),
                adjust_until: Some(platform::later(now, duration * 1_000_000)),
                ..s
            },
            None::<Event>,
        ),
{
}

/// An adjustment runs until the end that the last request gave it, whatever ends earlier ones gave,
/// and then ends once.
pub proof fn law_only_the_last_adjustment_ends(
    s: Session,
    events: Seq<Event>,
    power: i64,
    duration: u32,
    cause: AdjustmentCauseEnum,
    now: Instant,
    at: Instant,
)
    requires
        s.paused_until is None,
    ensures
        ({
            let end = platform::later(now, duration * 1_000_000);
            let running = settled(s, Action::PowerAdjust(power, duration, cause), now).0;
            &&& at.micros < end.micros ==> polled(running, events, at) == (running, events)
            &&& at.micros >= end.micros ==> {
                let (after, told) = polled(running, events, at);
                &&& after.adjust_reason == PowerAdjustReasonEnum::NoAdjustment
                &&& told == bounded::newest(events, Event::PowerAdjustEnd(CauseEnum::NormalCompletion), 8)
                &&& polled(after, told, at) == (after, told)
            }
        }),
{
}

/// Whether a householder's opt-out stands against a request: a full one against every request, one for the
/// home's good against those for it, and one for the grid's good against those.
pub open spec fn vetoed(opt_out: OptOutStateEnum, cause: u64) -> bool {
    ||| opt_out is OptOut
    ||| opt_out is LocalOptOut && cause == 0
    ||| opt_out is GridOptOut && cause == 1
}

/// The cause that a number stands for.
pub open spec fn cause_numbered(cause: u64) -> AdjustmentCauseEnum {
    if cause == 0 {
        AdjustmentCauseEnum::LocalOptimization
    } else {
        AdjustmentCauseEnum::GridOptimization
    }
}

/// Whether the appliance was asked to do one thing and what it said is the answer.
pub open spec fn passed_on<'a, H: DemHooks>(
    before: DeviceEnergyManagement<'a, H>,
    after: DeviceEnergyManagement<'a, H>,
    action: Action,
    a: InvokeAnswer,
) -> bool {
    &&& after.hooks.calls().len() == before.hooks.calls().len() + 1
    &&& after.hooks.calls().last() matches Call::Act(asked, outcome) && asked == action && a == (match outcome {
        Ok(_) => im::done(),
        Err(status) => im::refused(status),
    })
    &&& a is Err ==> after.session == before.session && after.events@ == before.events@
}

/// Whether a request was turned down: nothing is asked of the appliance, and nothing changes.
pub open spec fn turned_down<'a, H: DemHooks>(
    before: DeviceEnergyManagement<'a, H>,
    after: DeviceEnergyManagement<'a, H>,
    status: Status,
    a: InvokeAnswer,
) -> bool {
    &&& a == im::refused(status)
    &&& after.hooks == before.hooks
    &&& after.session == before.session
    &&& after.events@ == before.events@
}

/// `PowerAdjustRequest` is refused for the opt-out exactly where that stands against its cause, and else is
/// passed on to the appliance exactly where that runs, one of its ranges holds both the power and the time,
/// and no adjustment runs or the running one may be interrupted. An adjustment that the appliance takes on
/// runs for the time that was asked for, for the cause that was given, and starts once.
pub proof fn law_a_power_adjustment_is_judged<'a, H: DemHooks>(
    before: DeviceEnergyManagement<'a, H>,
    after: DeviceEnergyManagement<'a, H>,
    resolved: ResolvedCommand,
    b: Seq<u8>,
    items: Seq<Element>,
    power: i64,
    duration: u32,
    cause: u64,
    ctx: InteractionContext,
    tag: Tag,
    a: InvokeAnswer,
)
    requires
        DeviceEnergyManagement::invokes(&before, &after, resolved, Some(b), ctx, tag, a),
        resolved.command == 0x00,
        before.feature_map & 0x01 != 0,
        fields::decode(
            b,
            seq![
                Field(0, Kind::I64, Need::Required),
                Field(1, Kind::U32, Need::Required),
                Field(2, Kind::Enum(1), Need::Required),
            ],
        ) == Ok::<Seq<Element>, Status>(items),
        fields::int64(items, 0) == Some(power),
        fields::num(items, 1) == Some(duration as u64),
        fields::num(items, 2) == Some(cause),
        cause <= 1,
    ensures
        exists|ap: Appliance|
            {
                let running = !(before.session.adjust_reason is NoAdjustment);
                let offered = exists|i: int|
                    {
                        let r = #[trigger] ap.ranges@[i];
                        0 <= i < ap.ranges@.len() && r.min_power <= power <= r.max_power && r.min_duration <= duration
                            <= r.max_duration
                    };
                &&& #[trigger] before.hooks.says(ap)
                &&& if vetoed(ap.opt_out, cause) {
                    turned_down(before, after, Status::ConstraintError, a)
                } else if !(ap.base_state is Online) {
                    turned_down(before, after, Status::Failure, a)
                } else if !offered {
                    turned_down(before, after, Status::ConstraintError, a)
                } else if running && !ap.may_interrupt {
                    turned_down(before, after, Status::Busy, a)
                } else {
                    passed_on(before, after, Action::PowerAdjust(power, duration, cause_numbered(cause)), a)
                }
            },
        a is Ok ==> {
            &&& after.session.adjust_reason == (if cause == 0 {
                PowerAdjustReasonEnum::LocalOptimizationAdjustment
            } else {
                PowerAdjustReasonEnum::GridOptimizationAdjustment
            })
            &&& ctx.now.micros + duration * 1_000_000 <= u64::MAX ==> (after.session.adjust_until matches Some(t) && t.micros
                == ctx.now.micros + duration * 1_000_000)
            &&& after.session.paused_until == before.session.paused_until
            &&& before.session.adjust_reason is NoAdjustment && before.events@.len() < 8 ==> after.events@
                == before.events@.push(Event::PowerAdjustStart)
            &&& !(before.session.adjust_reason is NoAdjustment) ==> after.events@ == before.events@
            &&& reported(ESAStateEnum::Online, after.session) == (if after.session.paused_until is Some {
                ESAStateEnum::Paused
            } else {
                ESAStateEnum::PowerAdjustActive
            })
        },
{
    assert(power_adjust_schema() =~= seq![
        Field(0, Kind::I64, Need::Required),
        Field(1, Kind::U32, Need::Required),
        Field(2, Kind::Enum(1), Need::Required),
    ]);
    let (ap, verdict, outcome) = choose|ap: Appliance, verdict: Result<Action, Status>, outcome: Result<(), Status>|
        {
            &&& before.hooks.says(ap)
            &&& match verdict {
                Ok(action) => before.hooks.does(action, outcome) && after.hooks.called(
                    &before.hooks,
                    Call::Act(action, outcome),
                ),
                Err(_) => after.hooks == before.hooks,
            }
            &&& #[trigger] decided(before.feature_map, before.session, resolved.command, Some(b), ap, verdict)
            &&& #[trigger] carried_out(before.session, before.events@, verdict, outcome, ctx.now) == (
                after.session,
                after.events@,
                a,
            )
        };
    assert(before.hooks.says(ap));
    if on_offer(ap.ranges@, power, duration) {
        let i = choose|i: int| 0 <= i < ap.ranges@.len() && (#[trigger] ap.ranges@[i]).holds(power, duration);
        assert(ap.ranges@[i].holds(power, duration));
    } else {
        assert forall|i: int| 0 <= i < ap.ranges@.len() implies !({
            let r = #[trigger] ap.ranges@[i];
            r.min_power <= power <= r.max_power && r.min_duration <= duration <= r.max_duration
        }) by {
            assert(!ap.ranges@[i].holds(power, duration));
        }
    }
}

/// What a request that moves or pauses a plan is judged by, and what comes of one that is passed on.
pub proof fn law_moves_and_pauses_are_judged<'a, H: DemHooks>(
    before: DeviceEnergyManagement<'a, H>,
    after: DeviceEnergyManagement<'a, H>,
    resolved: ResolvedCommand,
    b: Seq<u8>,
    items: Seq<Element>,
    time: u32,
    cause: u64,
    ctx: InteractionContext,
    tag: Tag,
    a: InvokeAnswer,
)
    requires
        DeviceEnergyManagement::invokes(&before, &after, resolved, Some(b), ctx, tag, a),
        (resolved.command == 0x02 && before.feature_map & 0x08 != 0) || (resolved.command == 0x03 && before.feature_map & 0x10 != 0),
        fields::decode(b, seq![Field(0, Kind::U32, Need::Required), Field(1, Kind::Enum(1), Need::Required)]) == Ok::<
            Seq<Element>,
            Status,
        >(items),
        fields::num(items, 0) == Some(time as u64),
        fields::num(items, 1) == Some(cause),
        cause <= 1,
    ensures
        exists|ap: Appliance|
            {
                &&& #[trigger] before.hooks.says(ap)
                &&& if vetoed(ap.opt_out, cause) {
                    turned_down(before, after, Status::ConstraintError, a)
                } else if ap.forecast is None {
                    turned_down(before, after, Status::Failure, a)
                } else {
                    let f = ap.forecast->Some_0;
                    let span = if f.end_time >= f.start_time { f.end_time - f.start_time } else { 0 };
                    let end = if time + span > u32::MAX { u32::MAX as int } else { time + span };
                    if resolved.command == 0x02 {
                        if (f.earliest_start_time matches Some(t) && time < t) || (f.latest_end_time matches Some(t) && end > t) {
                            turned_down(before, after, Status::ConstraintError, a)
                        } else {
                            passed_on(before, after, Action::AdjustStart(time, cause_numbered(cause)), a)
                        }
                    } else if !f.slot_is_pausable {
                        turned_down(before, after, Status::Failure, a)
                    } else if time < f.min_pause_duration || time > f.max_pause_duration {
                        turned_down(before, after, Status::ConstraintError, a)
                    } else if ap.base_state is Offline || ap.base_state is Fault {
                        turned_down(before, after, Status::Failure, a)
                    } else {
                        passed_on(before, after, Action::Pause(time, cause_numbered(cause)), a)
                    }
                }
            },
        resolved.command == 0x02 ==> after.session == before.session && after.events@ == before.events@,
        resolved.command == 0x03 && a is Ok ==> {
            let from = if before.session.paused_until is Some { before.session.paused_until->Some_0 } else { ctx.now };
            &&& from.micros + time * 1_000_000 <= u64::MAX ==> (after.session.paused_until matches Some(t) && t.micros
                == from.micros + time * 1_000_000)
            &&& after.session.adjust_reason == before.session.adjust_reason
            &&& after.session.adjust_until == before.session.adjust_until
            &&& before.session.paused_until is None && before.events@.len() < 8 ==> after.events@ == before.events@.push(
                Event::Paused,
            )
            &&& before.session.paused_until is Some ==> after.events@ == before.events@
        },
{
    assert(timed_schema() =~= seq![Field(0, Kind::U32, Need::Required), Field(1, Kind::Enum(1), Need::Required)]);
    let (ap, verdict, outcome) = choose|ap: Appliance, verdict: Result<Action, Status>, outcome: Result<(), Status>|
        {
            &&& before.hooks.says(ap)
            &&& match verdict {
                Ok(action) => before.hooks.does(action, outcome) && after.hooks.called(
                    &before.hooks,
                    Call::Act(action, outcome),
                ),
                Err(_) => after.hooks == before.hooks,
            }
            &&& #[trigger] decided(before.feature_map, before.session, resolved.command, Some(b), ap, verdict)
            &&& #[trigger] carried_out(before.session, before.events@, verdict, outcome, ctx.now) == (
                after.session,
                after.events@,
                a,
            )
        };
    assert(before.hooks.says(ap));
}

/// `ModifyForecastRequest` is passed on exactly where the opt-out does not stand against its cause, its slots
/// can be read, at most ten, and it names the plan that the appliance has; and then with all of its slots.
pub proof fn law_a_modification_is_judged<'a, H: DemHooks>(
    before: DeviceEnergyManagement<'a, H>,
    after: DeviceEnergyManagement<'a, H>,
    resolved: ResolvedCommand,
    b: Seq<u8>,
    items: Seq<Element>,
    id: u32,
    start: usize,
    cause: u64,
    ctx: InteractionContext,
    tag: Tag,
    a: InvokeAnswer,
)
    requires
        DeviceEnergyManagement::invokes(&before, &after, resolved, Some(b), ctx, tag, a),
        resolved.command == 0x05,
        before.feature_map & 0x20 != 0,
        fields::decode(
            b,
            seq![
                Field(0, Kind::U32, Need::Required),
                Field(1, Kind::Array, Need::Required),
                Field(2, Kind::Enum(1), Need::Required),
            ],
        ) == Ok::<Seq<Element>, Status>(items),
        fields::num(items, 0) == Some(id as u64),
        fields::container(items, 1) == Some(start),
        fields::num(items, 2) == Some(cause),
        cause <= 1,
    ensures
        after.session == before.session,
        after.events@ == before.events@,
        exists|ap: Appliance|
            {
                let slots = fields::list_of::<SlotAdjustmentStruct>(b, start as int, 10, Status::ConstraintError);
                &&& #[trigger] before.hooks.says(ap)
                &&& if vetoed(ap.opt_out, cause) {
                    turned_down(before, after, Status::ConstraintError, a)
                } else if slots is Err {
                    turned_down(before, after, slots->Err_0, a)
                } else if !(ap.forecast matches Some(f) && f.forecast_id == id) {
                    turned_down(before, after, Status::Failure, a)
                } else {
                    &&& after.hooks.calls().len() == before.hooks.calls().len() + 1
                    &&& after.hooks.calls().last() matches Call::Act(Action::ModifyForecast(list, c), outcome) && list@
                        == slots->Ok_0 && c == cause_numbered(cause) && (a is Ok) == (outcome is Ok)
                }
            },
{
    assert(modify_schema() =~= seq![
        Field(0, Kind::U32, Need::Required),
        Field(1, Kind::Array, Need::Required),
        Field(2, Kind::Enum(1), Need::Required),
    ]);
    let (ap, verdict, outcome) = choose|ap: Appliance, verdict: Result<Action, Status>, outcome: Result<(), Status>|
        {
            &&& before.hooks.says(ap)
            &&& match verdict {
                Ok(action) => before.hooks.does(action, outcome) && after.hooks.called(
                    &before.hooks,
                    Call::Act(action, outcome),
                ),
                Err(_) => after.hooks == before.hooks,
            }
            &&& #[trigger] decided(before.feature_map, before.session, resolved.command, Some(b), ap, verdict)
            &&& #[trigger] carried_out(before.session, before.events@, verdict, outcome, ctx.now) == (
                after.session,
                after.events@,
                a,
            )
        };
    assert(before.hooks.says(ap));
}

/// `RequestConstraintBasedForecast` is passed on exactly where the opt-out does not stand against its cause and
/// its constraints can be read, at most ten; and then with all of its constraints.
pub proof fn law_constraints_are_judged<'a, H: DemHooks>(
    before: DeviceEnergyManagement<'a, H>,
    after: DeviceEnergyManagement<'a, H>,
    resolved: ResolvedCommand,
    b: Seq<u8>,
    items: Seq<Element>,
    start: usize,
    cause: u64,
    ctx: InteractionContext,
    tag: Tag,
    a: InvokeAnswer,
)
    requires
        DeviceEnergyManagement::invokes(&before, &after, resolved, Some(b), ctx, tag, a),
        resolved.command == 0x06,
        before.feature_map & 0x40 != 0,
        fields::decode(b, seq![Field(0, Kind::Array, Need::Required), Field(1, Kind::Enum(1), Need::Required)]) == Ok::<
            Seq<Element>,
            Status,
        >(items),
        fields::container(items, 0) == Some(start),
        fields::num(items, 1) == Some(cause),
        cause <= 1,
    ensures
        after.session == before.session,
        after.events@ == before.events@,
        exists|ap: Appliance|
            {
                let read = fields::list_of::<ConstraintsStruct>(b, start as int, 10, Status::ConstraintError);
                &&& #[trigger] before.hooks.says(ap)
                &&& if vetoed(ap.opt_out, cause) {
                    turned_down(before, after, Status::ConstraintError, a)
                } else if read is Err {
                    turned_down(before, after, read->Err_0, a)
                } else {
                    &&& after.hooks.calls().len() == before.hooks.calls().len() + 1
                    &&& after.hooks.calls().last() matches Call::Act(Action::Constrain(list, c), outcome) && list@
                        == read->Ok_0 && c == cause_numbered(cause) && (a is Ok) == (outcome is Ok)
                }
            },
{
    assert(constrain_schema() =~= seq![Field(0, Kind::Array, Need::Required), Field(1, Kind::Enum(1), Need::Required)]);
    let (ap, verdict, outcome) = choose|ap: Appliance, verdict: Result<Action, Status>, outcome: Result<(), Status>|
        {
            &&& before.hooks.says(ap)
            &&& match verdict {
                Ok(action) => before.hooks.does(action, outcome) && after.hooks.called(
                    &before.hooks,
                    Call::Act(action, outcome),
                ),
                Err(_) => after.hooks == before.hooks,
            }
            &&& #[trigger] decided(before.feature_map, before.session, resolved.command, Some(b), ap, verdict)
            &&& #[trigger] carried_out(before.session, before.events@, verdict, outcome, ctx.now) == (
                after.session,
                after.events@,
                a,
            )
        };
    assert(before.hooks.says(ap));
}

/// An adjustment is cancelled exactly where one runs, and then none does; a pause is ended exactly where there is
/// one, and then there is none; a plan's adjustments are called off exactly where it has some.
pub proof fn law_what_runs_can_be_called_off<'a, H: DemHooks>(
    before: DeviceEnergyManagement<'a, H>,
    after: DeviceEnergyManagement<'a, H>,
    resolved: ResolvedCommand,
    data: Option<Seq<u8>>,
    ctx: InteractionContext,
    tag: Tag,
    a: InvokeAnswer,
)
    requires
        DeviceEnergyManagement::invokes(&before, &after, resolved, data, ctx, tag, a),
    ensures
        resolved.command == 0x01 && before.feature_map & 0x01 != 0 ==> if before.session.adjust_reason is NoAdjustment {
            turned_down(before, after, Status::InvalidInState, a)
        } else {
            &&& passed_on(before, after, Action::CancelPowerAdjust, a)
            &&& a == im::done()
            &&& after.session == (Session {
                adjust_reason: PowerAdjustReasonEnum::NoAdjustment,
                adjust_until: None,
                paused_until: before.session.paused_until,
            })
            &&& before.events@.len() < 8 ==> after.events@ == before.events@.push(Event::PowerAdjustEnd(CauseEnum::Cancelled))
        },
        resolved.command == 0x04 && before.feature_map & 0x10 != 0 ==> if before.session.paused_until is None {
            turned_down(before, after, Status::InvalidInState, a)
        } else {
            &&& passed_on(before, after, Action::Resume, a)
            &&& a is Ok ==> after.session == (Session {
                adjust_reason: before.session.adjust_reason,
                adjust_until: before.session.adjust_until,
                paused_until: None,
            })
            &&& a is Ok && before.events@.len() < 8 ==> after.events@ == before.events@.push(
                Event::Resumed(CauseEnum::Cancelled),
            )
        },
        resolved.command == 0x07 && before.feature_map & 0x08 != 0 ==> exists|ap: Appliance| #[trigger]
            before.hooks.says(ap) && if ap.forecast matches Some(f) && f.adjusted {
                passed_on(before, after, Action::CancelAdjustments, a) && after.session == before.session
            } else {
                turned_down(before, after, Status::InvalidInState, a)
            },
{
    let (ap, verdict, outcome) = choose|ap: Appliance, verdict: Result<Action, Status>, outcome: Result<(), Status>|
        {
            &&& before.hooks.says(ap)
            &&& match verdict {
                Ok(action) => before.hooks.does(action, outcome) && after.hooks.called(
                    &before.hooks,
                    Call::Act(action, outcome),
                ),
                Err(_) => after.hooks == before.hooks,
            }
            &&& #[trigger] decided(before.feature_map, before.session, resolved.command, data, ap, verdict)
            &&& #[trigger] carried_out(before.session, before.events@, verdict, outcome, ctx.now) == (
                after.session,
                after.events@,
                a,
            )
        };
    assert(before.hooks.says(ap));
}

/// What a read shows of an appliance is what it says of itself: its kind, its state under what runs, its bounds
/// and the householder's opt-out.
pub proof fn law_an_appliance_is_read_as_it_is<'a, H: DemHooks>(
    c: DeviceEnergyManagement<'a, H>,
    resolved: Resolved,
    ctx: InteractionContext,
    tag: Tag,
    a: ReadAnswer,
)
    requires
        c.answers(resolved, ctx, tag, a),
    ensures
        resolved.attribute == 0x0002 ==> exists|ap: Appliance| #[trigger]
            c.hooks.says(ap) && a is Ok && tlv::shows_number(
                a->Ok_0,
                0,
                tag,
                if ap.base_state is Offline {
                    0
                } else if ap.base_state is Fault {
                    2
                } else if ap.base_state is Online && c.session.paused_until is Some {
                    4
                } else if ap.base_state is Online && !(c.session.adjust_reason is NoAdjustment) {
                    3
                } else if ap.base_state is Online {
                    1
                } else if ap.base_state is PowerAdjustActive {
                    3
                } else {
                    4
                },
            ),
        resolved.attribute == 0x0007 ==> exists|ap: Appliance| #[trigger]
            c.hooks.says(ap) && a is Ok && tlv::shows_number(
                a->Ok_0,
                0,
                tag,
                match ap.opt_out {
                    OptOutStateEnum::NoOptOut => 0,
                    OptOutStateEnum::LocalOptOut => 1,
                    OptOutStateEnum::GridOptOut => 2,
                    OptOutStateEnum::OptOut => 3,
                },
            ),
        resolved.attribute == 0x0003 ==> exists|v: i64| #[trigger]
            call_ensures(H::abs_min_power, (c.hooks.product(),), v) && a == Ok::<Seq<u8>, Status>(tlv::signed_bytes(tag, v)),
        resolved.attribute == 0x0004 ==> exists|v: i64| #[trigger]
            call_ensures(H::abs_max_power, (c.hooks.product(),), v) && a == Ok::<Seq<u8>, Status>(tlv::signed_bytes(tag, v)),
        resolved.attribute == 0x0001 ==> exists|v: bool| #[trigger]
            call_ensures(H::can_generate, (c.hooks.product(),), v) && a == Ok::<Seq<u8>, Status>(tlv::bool_bytes(tag, v)),
        resolved.attribute == 0x0006 ==> exists|v: Vec<u8>| #[trigger]
            call_ensures(H::write_forecast, (c.hooks.product(), tag), v) && a == Ok::<Seq<u8>, Status>(v@),
{
    assert forall|v: u64| tlv::shows_number(#[trigger] tlv::unsigned_bytes(tag, v), 0, tag, v) by {
        tlv::lemma_shows_number(tag, v);
    }
}

/// How the cluster describes itself follows from the features and from what the product chooses: each attribute, command and event
/// is there exactly where they say so, with who may read, write or invoke it, and nothing else is.
pub proof fn law_the_cluster_describes_itself(features: u32, o: conformance::OptionalModel, c: crate::dm::ClusterModel)
    requires
        conformance::conform(defined(), features, o) == Ok::<crate::dm::ClusterModel, ErrorCode>(c),
    ensures
        c.id == 0x0098,
        c.revision == 4,
        c.feature_map == features,
        features & !0x7Fu32 == 0,
        c.attributes.contains(conformance::shown_attribute(0x0000, None)) == (true),
        c.attributes.contains(conformance::shown_attribute(0x0001, None)) == (true),
        c.attributes.contains(conformance::shown_attribute(0x0002, None)) == (true),
        c.attributes.contains(conformance::shown_attribute(0x0003, None)) == (true),
        c.attributes.contains(conformance::shown_attribute(0x0004, None)) == (true),
        c.attributes.contains(conformance::shown_attribute(0x0005, None)) == (features & 0x01 != 0),
        c.attributes.contains(conformance::shown_attribute(0x0006, None)) == (features & 0x06 != 0),
        c.attributes.contains(conformance::shown_attribute(0x0007, None)) == (features & 0x79 != 0),
        c.accepted_commands.contains(conformance::shown_command(0x00, Privilege::Operate, false, false, None)) == (features & 0x01 != 0),
        c.accepted_commands.contains(conformance::shown_command(0x01, Privilege::Operate, false, false, None)) == (features & 0x01 != 0),
        c.accepted_commands.contains(conformance::shown_command(0x02, Privilege::Operate, false, false, None)) == (features & 0x08 != 0),
        c.accepted_commands.contains(conformance::shown_command(0x03, Privilege::Operate, false, false, None)) == (features & 0x10 != 0),
        c.accepted_commands.contains(conformance::shown_command(0x04, Privilege::Operate, false, false, None)) == (features & 0x10 != 0),
        c.accepted_commands.contains(conformance::shown_command(0x05, Privilege::Operate, false, false, None)) == (features & 0x20 != 0),
        c.accepted_commands.contains(conformance::shown_command(0x06, Privilege::Operate, false, false, None)) == (features & 0x40 != 0),
        c.accepted_commands.contains(conformance::shown_command(0x07, Privilege::Operate, false, false, None)) == (features & 0x68 != 0),
        c.events.contains(conformance::shown_event(0x00, EventPriority::Info)) == (features & 0x01 != 0),
        c.events.contains(conformance::shown_event(0x01, EventPriority::Info)) == (features & 0x01 != 0),
        c.events.contains(conformance::shown_event(0x02, EventPriority::Info)) == (features & 0x10 != 0),
        c.events.contains(conformance::shown_event(0x03, EventPriority::Info)) == (features & 0x10 != 0),
        c.attributes.len() <= 8,
        c.accepted_commands.len() <= 8,
        c.events.len() <= 4,
{
    let d = defined();
    assert(conformance::told_apart(d.attributes));
    assert(conformance::told_apart(d.commands));
    assert(conformance::told_apart(d.events));
    conformance::lemma_described(d.attributes, features, o.attributes, conformance::shown_attribute(0x0000, None), 0);
    conformance::lemma_described(d.attributes, features, o.attributes, conformance::shown_attribute(0x0001, None), 1);
    conformance::lemma_described(d.attributes, features, o.attributes, conformance::shown_attribute(0x0002, None), 2);
    conformance::lemma_described(d.attributes, features, o.attributes, conformance::shown_attribute(0x0003, None), 3);
    conformance::lemma_described(d.attributes, features, o.attributes, conformance::shown_attribute(0x0004, None), 4);
    conformance::lemma_described(d.attributes, features, o.attributes, conformance::shown_attribute(0x0005, None), 5);
    conformance::lemma_described(d.attributes, features, o.attributes, conformance::shown_attribute(0x0006, None), 6);
    conformance::lemma_described(d.attributes, features, o.attributes, conformance::shown_attribute(0x0007, None), 7);
    conformance::lemma_described(d.commands, features, o.commands, conformance::shown_command(0x00, Privilege::Operate, false, false, None), 0);
    conformance::lemma_described(d.commands, features, o.commands, conformance::shown_command(0x01, Privilege::Operate, false, false, None), 1);
    conformance::lemma_described(d.commands, features, o.commands, conformance::shown_command(0x02, Privilege::Operate, false, false, None), 2);
    conformance::lemma_described(d.commands, features, o.commands, conformance::shown_command(0x03, Privilege::Operate, false, false, None), 3);
    conformance::lemma_described(d.commands, features, o.commands, conformance::shown_command(0x04, Privilege::Operate, false, false, None), 4);
    conformance::lemma_described(d.commands, features, o.commands, conformance::shown_command(0x05, Privilege::Operate, false, false, None), 5);
    conformance::lemma_described(d.commands, features, o.commands, conformance::shown_command(0x06, Privilege::Operate, false, false, None), 6);
    conformance::lemma_described(d.commands, features, o.commands, conformance::shown_command(0x07, Privilege::Operate, false, false, None), 7);
    conformance::lemma_described(d.events, features, o.events, conformance::shown_event(0x00, EventPriority::Info), 0);
    conformance::lemma_described(d.events, features, o.events, conformance::shown_event(0x01, EventPriority::Info), 1);
    conformance::lemma_described(d.events, features, o.events, conformance::shown_event(0x02, EventPriority::Info), 2);
    conformance::lemma_described(d.events, features, o.events, conformance::shown_event(0x03, EventPriority::Info), 3);
    conformance::lemma_at_most(d.attributes, features, o.attributes, d.attributes.len() as int);
    conformance::lemma_at_most(d.commands, features, o.commands, d.commands.len() as int);
    conformance::lemma_at_most(d.events, features, o.events, d.events.len() as int);
}

/// What an adjustment of a slot and a constraint are read from: each field under its own number, those that may be left out as
/// nothing where they are.
pub proof fn law_adjustments_and_constraints_are_read(b: Seq<u8>, e: Element, start: usize, items: Seq<Element>)
    requires
        e.value == Value::Container(ContainerKind::Structure, start),
    ensures
        fields::decode_at(
            b,
            start as int,
            seq![Field(0, Kind::U8, Need::Required), Field(1, Kind::I64, Need::Optional), Field(2, Kind::U32, Need::Required)],
        ) == Ok::<Seq<Element>, Status>(items) && fields::num8(items, 0) is Some && fields::num32(items, 2) is Some
            ==> SlotAdjustmentStruct::of(b, e) == Ok::<SlotAdjustmentStruct, Status>(
            SlotAdjustmentStruct {
                slot_index: fields::num8(items, 0)->Some_0,
                nominal_power: fields::int64(items, 1),
                duration: fields::num32(items, 2)->Some_0,
            },
        ),
        fields::decode_at(
            b,
            start as int,
            seq![
                Field(0, Kind::U32, Need::Required),
                Field(1, Kind::U32, Need::Required),
                Field(2, Kind::I64, Need::Optional),
                Field(3, Kind::I64, Need::Optional),
                Field(4, Kind::I8, Need::Optional),
            ],
        ) == Ok::<Seq<Element>, Status>(items) && fields::num32(items, 0) is Some && fields::num32(items, 1) is Some
            ==> ConstraintsStruct::of(b, e) == Ok::<ConstraintsStruct, Status>(
            ConstraintsStruct {
                start_time: fields::num32(items, 0)->Some_0,
                duration: fields::num32(items, 1)->Some_0,
                nominal_power: fields::int64(items, 2),
                maximum_energy: fields::int64(items, 3),
                load_control: fields::int8(items, 4),
            },
        ),
{
    assert(slot_schema() =~= seq![
        Field(0, Kind::U8, Need::Required),
        Field(1, Kind::I64, Need::Optional),
        Field(2, Kind::U32, Need::Required),
    ]);
    assert(constraint_schema() =~= seq![
        Field(0, Kind::U32, Need::Required),
        Field(1, Kind::U32, Need::Required),
        Field(2, Kind::I64, Need::Optional),
        Field(3, Kind::I64, Need::Optional),
        Field(4, Kind::I8, Need::Optional),
    ]);
}

} // verus!
