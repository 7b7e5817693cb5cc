//! Electrical Power Measurement, cluster `0x0090`: what a meter reads now.
//!
//! A reading that is not there is null, and not zero: an appliance that draws nothing and a meter
//! that has read nothing are different facts.

use vstd::prelude::*;

use super::{MeasurementAccuracyStruct, MeasurementTypeEnum};
use crate::clusters::dispatch::Cluster;
use crate::conformance;
use crate::conformance::{Conformance, Conforming, Definition, DefinitionModel, Optional, OptionalModel};
use crate::dm::EventPriority;
use crate::error::ErrorCode;
use crate::im;
use crate::im::{
    AttributeId, ClusterHandler, ClusterId, EventId, InteractionContext, InvokeAnswer, Lifecycle, ReadAnswer, Reply, Resolved,
    ResolvedCommand, Status, StatusIb, WriteOp,
};
use crate::tlv;
use crate::tlv::{Numbered, Tag, ToTlv};

verus! {

/// The cluster.
pub const ID: ClusterId = 0x0090;

/// Its revision.
pub const REVISION: u16 = 3;

/// `DIRC`: direct current.
pub const DIRECT_CURRENT: u32 = 0x01;

/// `ALTC`: alternating current.
pub const ALTERNATING_CURRENT: u32 = 0x02;

/// `POLY`: more than one phase.
pub const POLYPHASE_POWER: u32 = 0x04;

/// `HARM`: harmonics.
pub const HARMONICS: u32 = 0x08;

/// `PWRQ`: the phases of harmonics.
pub const POWER_QUALITY: u32 = 0x10;

/// `PowerMode`.
pub const POWER_MODE: AttributeId = 0x0000;

/// `NumberOfMeasurementTypes`.
pub const NUMBER_OF_MEASUREMENT_TYPES: AttributeId = 0x0001;

/// `Accuracy`.
pub const ACCURACY: AttributeId = 0x0002;

/// `Ranges`.
pub const RANGES: AttributeId = 0x0003;

/// `Voltage`.
pub const VOLTAGE: AttributeId = 0x0004;

/// `ActiveCurrent`.
pub const ACTIVE_CURRENT: AttributeId = 0x0005;

/// `ReactiveCurrent`.
pub const REACTIVE_CURRENT: AttributeId = 0x0006;

/// `ApparentCurrent`.
pub const APPARENT_CURRENT: AttributeId = 0x0007;

/// `ActivePower`.
pub const ACTIVE_POWER: AttributeId = 0x0008;

/// `ReactivePower`.
pub const REACTIVE_POWER: AttributeId = 0x0009;

/// `ApparentPower`.
pub const APPARENT_POWER: AttributeId = 0x000A;

/// `RMSVoltage`.
pub const RMS_VOLTAGE: AttributeId = 0x000B;

/// `RMSCurrent`.
pub const RMS_CURRENT: AttributeId = 0x000C;

/// `RMSPower`.
pub const RMS_POWER: AttributeId = 0x000D;

/// `Frequency`.
pub const FREQUENCY: AttributeId = 0x000E;

/// `HarmonicCurrents`.
pub const HARMONIC_CURRENTS: AttributeId = 0x000F;

/// `HarmonicPhases`.
pub const HARMONIC_PHASES: AttributeId = 0x0010;

/// `PowerFactor`.
pub const POWER_FACTOR: AttributeId = 0x0011;

/// `NeutralCurrent`.
pub const NEUTRAL_CURRENT: AttributeId = 0x0012;

/// `MeasurementPeriodRanges`.
pub const MEASUREMENT_PERIOD_RANGES: EventId = 0x00;

/// How power comes.
#[derive(Debug, Clone, Copy, PartialEq, Eq, Structural)]
pub enum PowerModeEnum {
    /// It is not known.
    Unknown,
    /// As direct current.
    Dc,
    /// As alternating current.
    Ac,
}

impl Numbered for PowerModeEnum {
    open spec fn number(self) -> u64 {
        match self {
            PowerModeEnum::Unknown => 0,
            PowerModeEnum::Dc => 1,
            PowerModeEnum::Ac => 2,
        }
    }

    fn as_number(self) -> (v: u64) {
        match self {
            PowerModeEnum::Unknown => 0,
            PowerModeEnum::Dc => 1,
            PowerModeEnum::Ac => 2,
        }
    }
}

/// One harmonic.
#[derive(Debug, Clone, Copy, PartialEq, Eq, Structural)]
pub struct HarmonicMeasurementStruct {
    /// Which.
    pub order: u8,
    /// Its measurement, where there is one.
    pub measurement: Option<i64>,
}

impl HarmonicMeasurementStruct {
    /// The fields, on the wire.
    pub open spec fn body(self) -> Seq<u8> {
        tlv::unsigned_bytes(Tag::Context(0), self.order as u64) + tlv::nullable_signed_bytes(Tag::Context(1), self.measurement)
    }
}

impl ToTlv for HarmonicMeasurementStruct {
    open spec fn tlv(self, tag: Tag) -> Seq<u8> {
        tlv::structure_bytes(tag, self.body())
    }

    fn to_tlv(&self, out: &mut Vec<u8>, tag: Tag) {
        let mut body: Vec<u8> = Vec::new();
        tlv::put_unsigned(&mut body, Tag::Context(0), self.order as u64);
        tlv::put_nullable_signed(&mut body, Tag::Context(1), self.measurement);
        proof {
            assert(body@ =~= self.body());
        }
        tlv::put_structure(out, tag, &body);
    }
}

/// The extremes of a measurement.
#[derive(Debug, Clone, Copy, PartialEq, Eq, Structural)]
pub struct MeasurementRangeStruct {
    /// What is measured.
    pub measurement_type: MeasurementTypeEnum,
    /// The least value.
    pub min: i64,
    /// The greatest value.
    pub max: i64,
    /// When the period began.
    pub start_timestamp: Option<u64>,
    /// When it ended.
    pub end_timestamp: Option<u64>,
    /// When the least value was measured.
    pub min_timestamp: Option<u64>,
    /// When the greatest value was measured.
    pub max_timestamp: Option<u64>,
    /// When the period began, since the device did.
    pub start_systime: Option<u64>,
    /// When it ended, since the device began.
    pub end_systime: Option<u64>,
    /// When the least value was measured, since the device began.
    pub min_systime: Option<u64>,
    /// When the greatest value was measured, since the device began.
    pub max_systime: Option<u64>,
}

impl MeasurementRangeStruct {
    /// The fields, on the wire.
    pub open spec fn body(self) -> Seq<u8> {
        tlv::unsigned_bytes(Tag::Context(0), self.measurement_type.number()) + tlv::signed_bytes(Tag::Context(1), self.min)
            + tlv::signed_bytes(Tag::Context(2), self.max) + tlv::optional_bytes(Tag::Context(3), self.start_timestamp)
            + tlv::optional_bytes(Tag::Context(4), self.end_timestamp) + tlv::optional_bytes(
            Tag::Context(5),
            self.min_timestamp,
        ) + tlv::optional_bytes(Tag::Context(6), self.max_timestamp) + tlv::optional_bytes(Tag::Context(7), self.start_systime)
            + tlv::optional_bytes(Tag::Context(8), self.end_systime) + tlv::optional_bytes(Tag::Context(9), self.min_systime)
            + tlv::optional_bytes(Tag::Context(10), self.max_systime)
    }
}

impl ToTlv for MeasurementRangeStruct {
    open spec fn tlv(self, tag: Tag) -> Seq<u8> {
        tlv::structure_bytes(tag, self.body())
    }

    fn to_tlv(&self, out: &mut Vec<u8>, tag: Tag) {
        let mut body: Vec<u8> = Vec::new();
        tlv::put_unsigned(&mut body, Tag::Context(0), self.measurement_type.as_number());
        tlv::put_signed(&mut body, Tag::Context(1), self.min);
        tlv::put_signed(&mut body, Tag::Context(2), self.max);
        tlv::put_optional(&mut body, Tag::Context(3), self.start_timestamp);
        tlv::put_optional(&mut body, Tag::Context(4), self.end_timestamp);
        tlv::put_optional(&mut body, Tag::Context(5), self.min_timestamp);
        tlv::put_optional(&mut body, Tag::Context(6), self.max_timestamp);
        tlv::put_optional(&mut body, Tag::Context(7), self.start_systime);
        tlv::put_optional(&mut body, Tag::Context(8), self.end_systime);
        tlv::put_optional(&mut body, Tag::Context(9), self.min_systime);
        tlv::put_optional(&mut body, Tag::Context(10), self.max_systime);
        proof {
            assert(body@ =~= self.body());
        }
        tlv::put_structure(out, tag, &body);
    }
}

/// What a meter reads. Currents are in milliamperes, voltages in millivolts, powers in milliwatts;
/// a power below zero is one that is generated.
pub trait PowerMeterHooks {
    /// How power comes.
    fn power_mode(&self) -> (r: PowerModeEnum)
        default_ensures
            r == PowerModeEnum::Unknown,
    {
        PowerModeEnum::Unknown
    }

    /// How exact each measurement is.
    fn accuracy(&self) -> &[MeasurementAccuracyStruct<'_>];

    /// The extremes over the measurement period.
    fn ranges(&self) -> (r: Vec<MeasurementRangeStruct>)
        default_ensures
            r@.len() == 0,
    {
        Vec::new()
    }

    /// The voltage.
    fn voltage(&self) -> (r: Option<i64>)
        default_ensures
            r is None,
    {
        None
    }

    /// The active current.
    fn active_current(&self) -> (r: Option<i64>)
        default_ensures
            r is None,
    {
        None
    }

    /// The reactive current.
    fn reactive_current(&self) -> (r: Option<i64>)
        default_ensures
            r is None,
    {
        None
    }

    /// The apparent current.
    fn apparent_current(&self) -> (r: Option<i64>)
        default_ensures
            r is None,
    {
        None
    }

    /// The active power.
    fn active_power(&self) -> Option<i64>;

    /// The reactive power.
    fn reactive_power(&self) -> (r: Option<i64>)
        default_ensures
            r is None,
    {
        None
    }

    /// The apparent power.
    fn apparent_power(&self) -> (r: Option<i64>)
        default_ensures
            r is None,
    {
        None
    }

    /// The root mean square voltage.
    fn rms_voltage(&self) -> (r: Option<i64>)
        default_ensures
            r is None,
    {
        None
    }

    /// The root mean square current.
    fn rms_current(&self) -> (r: Option<i64>)
        default_ensures
            r is None,
    {
        None
    }

    /// The root mean square power.
    fn rms_power(&self) -> (r: Option<i64>)
        default_ensures
            r is None,
    {
        None
    }

    /// The frequency, in millihertz.
    fn frequency(&self) -> (r: Option<i64>)
        default_ensures
            r is None,
    {
        None
    }

    /// The power factor, in hundredths of a percent.
    fn power_factor(&self) -> (r: Option<i64>)
        default_ensures
            r is None,
    {
        None
    }

    /// The neutral current.
    fn neutral_current(&self) -> (r: Option<i64>)
        default_ensures
            r is None,
    {
        None
    }

    /// The currents of the harmonics.
    fn harmonic_currents(&self) -> (r: Vec<HarmonicMeasurementStruct>)
        default_ensures
            r@.len() == 0,
    {
        Vec::new()
    }

    /// The phases of the harmonics.
    fn harmonic_phases(&self) -> (r: Vec<HarmonicMeasurementStruct>)
        default_ensures
            r@.len() == 0,
    {
        Vec::new()
    }
}

/// The cluster's definition.
pub open spec fn defined() -> DefinitionModel {
    DefinitionModel {
        id: ID,
        revision: REVISION,
        features: 0x1F,
        attributes: seq![
            conformance::reads(POWER_MODE, Conformance::Mandatory),
            conformance::reads(NUMBER_OF_MEASUREMENT_TYPES, Conformance::Mandatory),
            conformance::reads(ACCURACY, Conformance::Mandatory),
            conformance::reads(RANGES, Conformance::Optional),
            conformance::reads(VOLTAGE, Conformance::Optional),
            conformance::reads(ACTIVE_CURRENT, Conformance::Optional),
            conformance::reads(REACTIVE_CURRENT, Conformance::OptionalWith(ALTERNATING_CURRENT)),
            conformance::reads(APPARENT_CURRENT, Conformance::OptionalWith(ALTERNATING_CURRENT)),
            conformance::reads(ACTIVE_POWER, Conformance::Mandatory),
            conformance::reads(REACTIVE_POWER, Conformance::OptionalWith(ALTERNATING_CURRENT)),
            conformance::reads(APPARENT_POWER, Conformance::OptionalWith(ALTERNATING_CURRENT)),
            conformance::reads(RMS_VOLTAGE, Conformance::OptionalWith(ALTERNATING_CURRENT)),
            conformance::reads(RMS_CURRENT, Conformance::OptionalWith(ALTERNATING_CURRENT)),
            conformance::reads(RMS_POWER, Conformance::OptionalWith(ALTERNATING_CURRENT)),
            conformance::reads(FREQUENCY, Conformance::OptionalWith(ALTERNATING_CURRENT)),
            conformance::reads(HARMONIC_CURRENTS, Conformance::With(HARMONICS)),
            conformance::reads(HARMONIC_PHASES, Conformance::With(POWER_QUALITY)),
            conformance::reads(POWER_FACTOR, Conformance::OptionalWith(ALTERNATING_CURRENT)),
            conformance::reads(NEUTRAL_CURRENT, Conformance::OptionalWith(POLYPHASE_POWER)),
        ],
        commands: Seq::empty(),
        generated: Seq::empty(),
        events: seq![conformance::tells(MEASUREMENT_PERIOD_RANGES, EventPriority::Info, Conformance::Optional)],
    }
}

/// The cluster's definition.
pub fn definition() -> (d: Definition)
    ensures
        d@ == defined(),
{
    let d: Definition = Definition {
        id: ID,
        revision: REVISION,
        features: 0x1F,
        attributes: vec![
            conformance::readable(POWER_MODE, Conformance::Mandatory),
            conformance::readable(NUMBER_OF_MEASUREMENT_TYPES, Conformance::Mandatory),
            conformance::readable(ACCURACY, Conformance::Mandatory),
            conformance::readable(RANGES, Conformance::Optional),
            conformance::readable(VOLTAGE, Conformance::Optional),
            conformance::readable(ACTIVE_CURRENT, Conformance::Optional),
            conformance::readable(REACTIVE_CURRENT, Conformance::OptionalWith(ALTERNATING_CURRENT)),
            conformance::readable(APPARENT_CURRENT, Conformance::OptionalWith(ALTERNATING_CURRENT)),
            conformance::readable(ACTIVE_POWER, Conformance::Mandatory),
            conformance::readable(REACTIVE_POWER, Conformance::OptionalWith(ALTERNATING_CURRENT)),
            conformance::readable(APPARENT_POWER, Conformance::OptionalWith(ALTERNATING_CURRENT)),
            conformance::readable(RMS_VOLTAGE, Conformance::OptionalWith(ALTERNATING_CURRENT)),
            conformance::readable(RMS_CURRENT, Conformance::OptionalWith(ALTERNATING_CURRENT)),
            conformance::readable(RMS_POWER, Conformance::OptionalWith(ALTERNATING_CURRENT)),
            conformance::readable(FREQUENCY, Conformance::OptionalWith(ALTERNATING_CURRENT)),
            conformance::readable(HARMONIC_CURRENTS, Conformance::With(HARMONICS)),
            conformance::readable(HARMONIC_PHASES, Conformance::With(POWER_QUALITY)),
            conformance::readable(POWER_FACTOR, Conformance::OptionalWith(ALTERNATING_CURRENT)),
            conformance::readable(NEUTRAL_CURRENT, Conformance::OptionalWith(POLYPHASE_POWER)),
        ],
        commands: Vec::new(),
        generated: Vec::new(),
        events: vec![conformance::event(MEASUREMENT_PERIOD_RANGES, EventPriority::Info, Conformance::Optional)],
    };
    proof {
        assert(d@.attributes =~= defined().attributes);
        assert(d@.events =~= defined().events);
    }
    d
}

/// What a meter with a sensor for voltage and one for current can offer.
pub fn with_basic_readings() -> (o: Optional)
    ensures
        o@ == (OptionalModel {
            attributes: seq![RANGES, VOLTAGE, ACTIVE_CURRENT, APPARENT_CURRENT],
            commands: Seq::empty(),
            events: Seq::empty(),
        }),
{
    let o: Optional = Optional {
        attributes: vec![RANGES, VOLTAGE, ACTIVE_CURRENT, APPARENT_CURRENT],
        commands: Vec::new(),
        events: Vec::new(),
    };
    proof {
        assert(o@.attributes =~= seq![RANGES, VOLTAGE, ACTIVE_CURRENT, APPARENT_CURRENT]);
    }
    o
}

/// A reading, given what the meter says.
pub open spec fn measured_answer(tag: Tag, v: Option<i64>) -> ReadAnswer {
    Ok(tlv::nullable_signed_bytes(tag, v))
}

/// A list, given what the meter says.
pub open spec fn list_answer<T: ToTlv>(tag: Tag, items: Seq<T>) -> ReadAnswer {
    Ok(tlv::members_bytes(tag, items))
}

/// How many measurements there are, given how exact each is.
pub open spec fn count_answer(tag: Tag, accuracy: Seq<MeasurementAccuracyStruct>) -> ReadAnswer {
    Ok(tlv::unsigned_bytes(tag, accuracy.len() as u64))
}

/// How power comes, given what the meter says.
pub open spec fn mode_answer(tag: Tag, mode: PowerModeEnum) -> ReadAnswer {
    Ok(tlv::unsigned_bytes(tag, mode.number()))
}

/// A reading, given what the meter says.
pub fn encode_measured(tag: Tag, v: Option<i64>) -> (a: Result<Vec<u8>, Status>)
    ensures
        im::read_answer(a) == measured_answer(tag, v),
{
    let mut out: Vec<u8> = Vec::new();
    tlv::put_nullable_signed(&mut out, tag, v);
    proof {
        assert(out@ =~= tlv::nullable_signed_bytes(tag, v));
    }
    Ok(out)
}

/// A list, given what the meter says.
pub fn encode_list<T: ToTlv>(tag: Tag, items: &[T]) -> (a: Result<Vec<u8>, Status>)
    ensures
        im::read_answer(a) == list_answer(tag, items@),
{
    let mut out: Vec<u8> = Vec::new();
    tlv::put_members(&mut out, tag, items);
    proof {
        assert(out@ =~= tlv::members_bytes(tag, items@));
    }
    Ok(out)
}

/// How many measurements there are, given how exact each is.
pub fn encode_count(tag: Tag, accuracy: &[MeasurementAccuracyStruct<'_>]) -> (a: Result<Vec<u8>, Status>)
    ensures
        im::read_answer(a) == count_answer(tag, accuracy@),
{
    let mut out: Vec<u8> = Vec::new();
    tlv::put_unsigned(&mut out, tag, accuracy.len() as u64);
    proof {
        assert(out@ =~= tlv::unsigned_bytes(tag, accuracy@.len() as u64));
    }
    Ok(out)
}

/// How power comes, given what the meter says.
pub fn encode_mode(tag: Tag, mode: PowerModeEnum) -> (a: Result<Vec<u8>, Status>)
    ensures
        im::read_answer(a) == mode_answer(tag, mode),
{
    let mut out: Vec<u8> = Vec::new();
    tlv::put_unsigned(&mut out, tag, mode.as_number());
    proof {
        assert(out@ =~= tlv::unsigned_bytes(tag, mode.number()));
    }
    Ok(out)
}

/// Electrical Power Measurement over a meter.
pub struct ElectricalPowerMeasurement<'a, H: PowerMeterHooks> {
    /// The meter.
    pub hooks: &'a H,
}

impl<'a, H: PowerMeterHooks> ElectricalPowerMeasurement<'a, H> {
    /// A cluster over a meter.
    pub fn new(hooks: &'a H) -> (c: Self)
        ensures
            c.hooks == hooks,
    {
        ElectricalPowerMeasurement { hooks }
    }

    /// The description for features and for what the product chooses.
    pub fn conforming(features: u32, optional: &Optional) -> (r: Result<Conforming, ErrorCode>)
        ensures
            conformance::outcome(r) == conformance::conform(defined(), features, optional@),
    {
        Conforming::new(&definition(), features, optional)
    }

    /// Whether the meter, asked for the reading of an attribute, may say `v`.
    pub open spec fn says(&self, id: AttributeId, v: Option<i64>) -> bool {
        if id == VOLTAGE {
            call_ensures(H::voltage, (self.hooks,), v)
        } else if id == ACTIVE_CURRENT {
            call_ensures(H::active_current, (self.hooks,), v)
        } else if id == REACTIVE_CURRENT {
            call_ensures(H::reactive_current, (self.hooks,), v)
        } else if id == APPARENT_CURRENT {
            call_ensures(H::apparent_current, (self.hooks,), v)
        } else if id == ACTIVE_POWER {
            call_ensures(H::active_power, (self.hooks,), v)
        } else if id == REACTIVE_POWER {
            call_ensures(H::reactive_power, (self.hooks,), v)
        } else if id == APPARENT_POWER {
            call_ensures(H::apparent_power, (self.hooks,), v)
        } else if id == RMS_VOLTAGE {
            call_ensures(H::rms_voltage, (self.hooks,), v)
        } else if id == RMS_CURRENT {
            call_ensures(H::rms_current, (self.hooks,), v)
        } else if id == RMS_POWER {
            call_ensures(H::rms_power, (self.hooks,), v)
        } else if id == FREQUENCY {
            call_ensures(H::frequency, (self.hooks,), v)
        } else if id == POWER_FACTOR {
            call_ensures(H::power_factor, (self.hooks,), v)
        } else {
            id == NEUTRAL_CURRENT && call_ensures(H::neutral_current, (self.hooks,), v)
        }
    }

    /// Asks the meter for the reading of an attribute.
    fn ask(&self, id: AttributeId) -> (v: Option<i64>)
        requires
            VOLTAGE <= id <= FREQUENCY || id == POWER_FACTOR || id == NEUTRAL_CURRENT,
        ensures
            self.says(id, v),
    {
        match id {
            VOLTAGE => self.hooks.voltage(),
            ACTIVE_CURRENT => self.hooks.active_current(),
            REACTIVE_CURRENT => self.hooks.reactive_current(),
            APPARENT_CURRENT => self.hooks.apparent_current(),
            ACTIVE_POWER => self.hooks.active_power(),
            REACTIVE_POWER => self.hooks.reactive_power(),
            APPARENT_POWER => self.hooks.apparent_power(),
            RMS_VOLTAGE => self.hooks.rms_voltage(),
            RMS_CURRENT => self.hooks.rms_current(),
            RMS_POWER => self.hooks.rms_power(),
            FREQUENCY => self.hooks.frequency(),
            POWER_FACTOR => self.hooks.power_factor(),
            _ => self.hooks.neutral_current(),
        }
    }
}

impl<'a, H: PowerMeterHooks> Cluster for ElectricalPowerMeasurement<'a, H> {
    const ID: ClusterId = ID;
}

impl<'a, H: PowerMeterHooks> ClusterHandler for ElectricalPowerMeasurement<'a, H> {
    open spec fn answers(&self, resolved: Resolved, ctx: InteractionContext, tag: Tag, a: ReadAnswer) -> bool {
        let id = resolved.attribute;
        if id == POWER_MODE {
            exists|m: PowerModeEnum| #[trigger] call_ensures(H::power_mode, (self.hooks,), m) && a == mode_answer(tag, m)
        } else if id == NUMBER_OF_MEASUREMENT_TYPES {
            exists|s: &[MeasurementAccuracyStruct<'_>]| #[trigger]
                call_ensures(H::accuracy, (self.hooks,), s) && a == count_answer(tag, s@)
        } else if id == ACCURACY {
            exists|s: &[MeasurementAccuracyStruct<'_>]| #[trigger]
                call_ensures(H::accuracy, (self.hooks,), s) && a == list_answer(tag, s@)
        } else if id == RANGES {
            exists|s: Vec<MeasurementRangeStruct>| #[trigger]
                call_ensures(H::ranges, (self.hooks,), s) && a == list_answer(tag, s@)
        } else if id == HARMONIC_CURRENTS {
            exists|s: Vec<HarmonicMeasurementStruct>| #[trigger]
                call_ensures(H::harmonic_currents, (self.hooks,), s) && a == list_answer(tag, s@)
        } else if id == HARMONIC_PHASES {
            exists|s: Vec<HarmonicMeasurementStruct>| #[trigger]
                call_ensures(H::harmonic_phases, (self.hooks,), s) && a == list_answer(tag, s@)
        } else if id <= NEUTRAL_CURRENT {
            exists|v: Option<i64>| #[trigger] self.says(id, v) && a == measured_answer(tag, v)
        } else {
            a == Err::<Seq<u8>, Status>(Status::UnsupportedAttribute)
        }
    }

    open spec fn writes(
        before: &Self,
        after: &Self,
        resolved: Resolved,
        data: Seq<u8>,
        op: WriteOp,
        ctx: InteractionContext,
        r: Result<(), Status>,
    ) -> bool {
        *after == *before && r == Err::<(), Status>(Status::UnsupportedWrite)
    }

    open spec fn invokes(
        before: &Self,
        after: &Self,
        resolved: ResolvedCommand,
        fields: Option<Seq<u8>>,
        ctx: InteractionContext,
        tag: Tag,
        a: InvokeAnswer,
    ) -> bool {
        *after == *before && a == im::refused(Status::UnsupportedCommand)
    }

    open spec fn outlives(before: &Self, after: &Self, event: Lifecycle) -> bool {
        *after == *before
    }

    open spec fn unfit(&self, resolved: ResolvedCommand) -> Status {
        Status::Failure
    }

    fn answer(&self, resolved: &Resolved, ctx: &InteractionContext, tag: Tag) -> (a: Result<Vec<u8>, Status>) {
        match resolved.attribute {
            POWER_MODE => encode_mode(tag, self.hooks.power_mode()),
            NUMBER_OF_MEASUREMENT_TYPES => encode_count(tag, self.hooks.accuracy()),
            ACCURACY => encode_list(tag, self.hooks.accuracy()),
            RANGES => {
                let ranges: Vec<MeasurementRangeStruct> = self.hooks.ranges();
                encode_list(tag, ranges.as_slice())
            },
            HARMONIC_CURRENTS => {
                let harmonics: Vec<HarmonicMeasurementStruct> = self.hooks.harmonic_currents();
                encode_list(tag, harmonics.as_slice())
            },
            HARMONIC_PHASES => {
                let harmonics: Vec<HarmonicMeasurementStruct> = self.hooks.harmonic_phases();
                encode_list(tag, harmonics.as_slice())
            },
            id => if id <= NEUTRAL_CURRENT {
                encode_measured(tag, self.ask(id))
            } else {
                Err(Status::UnsupportedAttribute)
            },
        }
    }

    fn write(&mut self, resolved: &Resolved, data: &[u8], op: WriteOp, ctx: &InteractionContext) -> (r: Result<(), Status>) {
        Err(Status::UnsupportedWrite)
    }

    fn perform(
        &mut self,
        resolved: &ResolvedCommand,
        fields: Option<&[u8]>,
        ctx: &InteractionContext,
        tag: Tag,
    ) -> (a: Result<Reply, StatusIb>) {
        im::refuse(Status::UnsupportedCommand)
    }

    fn on_lifecycle(&mut self, event: Lifecycle) {
    }

    fn unfit_status(&self, resolved: &ResolvedCommand) -> (s: Status) {
        Status::Failure
    }
}

/// A reading that is not there never reads as a number.
pub proof fn law_no_reading_is_not_zero(tag: Tag, v: i64)
    ensures
        measured_answer(tag, None) != measured_answer(tag, Some(v)),
{
    let a = tlv::null_bytes(tag);
    let b = tlv::signed_bytes(tag, v);
    assert(a[0] != b[0]);
}

/// A list of harmonics or of extremes shows every one, in order, with what it is and each of its times that it has.
pub proof fn law_harmonics_and_extremes_are_shown(h: HarmonicMeasurementStruct, r: MeasurementRangeStruct, tag: Tag)
    ensures
        h.tlv(tag) == tlv::structure_bytes(
            tag,
            tlv::unsigned_bytes(Tag::Context(0), h.order as u64) + match h.measurement {
                Some(v) => tlv::signed_bytes(Tag::Context(1), v),
                None => tlv::null_bytes(Tag::Context(1)),
            },
        ),
        r.tlv(tag) == tlv::structure_bytes(
            tag,
            tlv::unsigned_bytes(Tag::Context(0), super::kind_number(r.measurement_type)) + tlv::signed_bytes(
                Tag::Context(1),
                r.min,
            ) + tlv::signed_bytes(Tag::Context(2), r.max) + super::field(3, r.start_timestamp)
                + super::field(4, r.end_timestamp) + super::field(5, r.min_timestamp)
                + super::field(6, r.max_timestamp) + super::field(7, r.start_systime)
                + super::field(8, r.end_systime) + super::field(9, r.min_systime)
                + super::field(10, r.max_systime),
        ),
{
}

/// What a read shows is what the meter says: each reading under its own number, null where there is none, how power comes, how
/// exact each measurement is and how many there are, and every extreme and harmonic.
pub proof fn law_power_is_read_as_it_is<'a, H: PowerMeterHooks>(
    c: ElectricalPowerMeasurement<'a, H>,
    resolved: Resolved,
    ctx: InteractionContext,
    tag: Tag,
    a: ReadAnswer,
)
    requires
        c.answers(resolved, ctx, tag, a),
    ensures
        ({
            let shown = |v: Option<i64>|
                a == Ok::<Seq<u8>, Status>(
                    match v {
                        Some(v) => tlv::signed_bytes(tag, v),
                        None => tlv::null_bytes(tag),
                    },
                );
            &&& resolved.attribute == 0x0000 ==> exists|m: PowerModeEnum| #[trigger]
                call_ensures(H::power_mode, (c.hooks,), m) && a is Ok && tlv::shows_number(
                    a->Ok_0,
                    0,
                    tag,
                    match m {
                        PowerModeEnum::Unknown => 0,
                        PowerModeEnum::Dc => 1,
                        PowerModeEnum::Ac => 2,
                    },
                )
            &&& resolved.attribute == 0x0001 ==> exists|s: &[MeasurementAccuracyStruct<'_>]| #[trigger]
                call_ensures(H::accuracy, (c.hooks,), s) && a is Ok && tlv::shows_number(a->Ok_0, 0, tag, s@.len() as u64)
            &&& resolved.attribute == 0x0002 ==> exists|s: &[MeasurementAccuracyStruct<'_>]| #[trigger]
                call_ensures(H::accuracy, (c.hooks,), s) && a == Ok::<Seq<u8>, Status>(tlv::members_bytes(tag, s@))
            &&& resolved.attribute == 0x0003 ==> exists|s: Vec<MeasurementRangeStruct>| #[trigger]
                call_ensures(H::ranges, (c.hooks,), s) && a == Ok::<Seq<u8>, Status>(tlv::members_bytes(tag, s@))
            &&& resolved.attribute == 0x000F ==> exists|s: Vec<HarmonicMeasurementStruct>| #[trigger]
                call_ensures(H::harmonic_currents, (c.hooks,), s) && a == Ok::<Seq<u8>, Status>(tlv::members_bytes(tag, s@))
            &&& resolved.attribute == 0x0010 ==> exists|s: Vec<HarmonicMeasurementStruct>| #[trigger]
                call_ensures(H::harmonic_phases, (c.hooks,), s) && a == Ok::<Seq<u8>, Status>(tlv::members_bytes(tag, s@))
            &&& resolved.attribute == 0x0004 ==> exists|v: Option<i64>| #[trigger] call_ensures(H::voltage, (c.hooks,), v) && shown(v)
            &&& resolved.attribute == 0x0005 ==> exists|v: Option<i64>| #[trigger] call_ensures(H::active_current, (c.hooks,), v) && shown(v)
            &&& resolved.attribute == 0x0006 ==> exists|v: Option<i64>| #[trigger] call_ensures(H::reactive_current, (c.hooks,), v) && shown(v)
            &&& resolved.attribute == 0x0007 ==> exists|v: Option<i64>| #[trigger] call_ensures(H::apparent_current, (c.hooks,), v) && shown(v)
            &&& resolved.attribute == 0x0008 ==> exists|v: Option<i64>| #[trigger] call_ensures(H::active_power, (c.hooks,), v) && shown(v)
            &&& resolved.attribute == 0x0009 ==> exists|v: Option<i64>| #[trigger] call_ensures(H::reactive_power, (c.hooks,), v) && shown(v)
            &&& resolved.attribute == 0x000A ==> exists|v: Option<i64>| #[trigger] call_ensures(H::apparent_power, (c.hooks,), v) && shown(v)
            &&& resolved.attribute == 0x000B ==> exists|v: Option<i64>| #[trigger] call_ensures(H::rms_voltage, (c.hooks,), v) && shown(v)
            &&& resolved.attribute == 0x000C ==> exists|v: Option<i64>| #[trigger] call_ensures(H::rms_current, (c.hooks,), v) && shown(v)
            &&& resolved.attribute == 0x000D ==> exists|v: Option<i64>| #[trigger] call_ensures(H::rms_power, (c.hooks,), v) && shown(v)
            &&& resolved.attribute == 0x000E ==> exists|v: Option<i64>| #[trigger] call_ensures(H::frequency, (c.hooks,), v) && shown(v)
            &&& resolved.attribute == 0x0011 ==> exists|v: Option<i64>| #[trigger] call_ensures(H::power_factor, (c.hooks,), v) && shown(v)
            &&& resolved.attribute == 0x0012 ==> exists|v: Option<i64>| #[trigger] call_ensures(H::neutral_current, (c.hooks,), v) && shown(v)
            &&& resolved.attribute > 0x0012 ==> a == Err::<Seq<u8>, Status>(Status::UnsupportedAttribute)
        }),
{
    assert forall|v: u64| tlv::shows_number(#[trigger] tlv::unsigned_bytes(tag, v), 0, tag, v) by {
        tlv::lemma_shows_number(tag, v);
    }
    if resolved.attribute > 0x0003 && resolved.attribute != 0x000F && resolved.attribute != 0x0010 && resolved.attribute <= 0x0012 {
        let v = choose|v: Option<i64>| #[trigger] c.says(resolved.attribute, v) && a == measured_answer(tag, v);
        assert(c.says(resolved.attribute, v));
    }
}

/// How the cluster describes itself follows from the features and from what the product chooses: each attribute, command and event
/// is there exactly where they say so, with who may read, write or invoke it, and nothing else is.
pub proof fn law_the_cluster_describes_itself(features: u32, o: conformance::OptionalModel, c: crate::dm::ClusterModel)
    requires
        conformance::conform(defined(), features, o) == Ok::<crate::dm::ClusterModel, ErrorCode>(c),
    ensures
        c.id == 0x0090,
        c.revision == 3,
        c.feature_map == features,
        features & !0x1Fu32 == 0,
        c.attributes.contains(conformance::shown_attribute(0x0000, None)) == (true),
        c.attributes.contains(conformance::shown_attribute(0x0001, None)) == (true),
        c.attributes.contains(conformance::shown_attribute(0x0002, None)) == (true),
        c.attributes.contains(conformance::shown_attribute(0x0003, None)) == (o.attributes.contains(0x0003)),
        c.attributes.contains(conformance::shown_attribute(0x0004, None)) == (o.attributes.contains(0x0004)),
        c.attributes.contains(conformance::shown_attribute(0x0005, None)) == (o.attributes.contains(0x0005)),
        c.attributes.contains(conformance::shown_attribute(0x0006, None)) == ((features & 0x02 != 0 && o.attributes.contains(0x0006))),
        c.attributes.contains(conformance::shown_attribute(0x0007, None)) == ((features & 0x02 != 0 && o.attributes.contains(0x0007))),
        c.attributes.contains(conformance::shown_attribute(0x0008, None)) == (true),
        c.attributes.contains(conformance::shown_attribute(0x0009, None)) == ((features & 0x02 != 0 && o.attributes.contains(0x0009))),
        c.attributes.contains(conformance::shown_attribute(0x000A, None)) == ((features & 0x02 != 0 && o.attributes.contains(0x000A))),
        c.attributes.contains(conformance::shown_attribute(0x000B, None)) == ((features & 0x02 != 0 && o.attributes.contains(0x000B))),
        c.attributes.contains(conformance::shown_attribute(0x000C, None)) == ((features & 0x02 != 0 && o.attributes.contains(0x000C))),
        c.attributes.contains(conformance::shown_attribute(0x000D, None)) == ((features & 0x02 != 0 && o.attributes.contains(0x000D))),
        c.attributes.contains(conformance::shown_attribute(0x000E, None)) == ((features & 0x02 != 0 && o.attributes.contains(0x000E))),
        c.attributes.contains(conformance::shown_attribute(0x000F, None)) == (features & 0x08 != 0),
        c.attributes.contains(conformance::shown_attribute(0x0010, None)) == (features & 0x10 != 0),
        c.attributes.contains(conformance::shown_attribute(0x0011, None)) == ((features & 0x02 != 0 && o.attributes.contains(0x0011))),
        c.attributes.contains(conformance::shown_attribute(0x0012, None)) == ((features & 0x04 != 0 && o.attributes.contains(0x0012))),
        c.events.contains(conformance::shown_event(0x00, EventPriority::Info)) == (o.events.contains(0x00)),
        c.attributes.len() <= 19,
        c.accepted_commands.len() <= 0,
        c.events.len() <= 1,
{
    let d = defined();
    assert(conformance::told_apart(d.attributes));
    assert(conformance::told_apart(d.commands));
    assert(conformance::told_apart(d.events));
    conformance::lemma_described(d.attributes, features, o.attributes, conformance::shown_attribute(0x0000, None), 0);
    conformance::lemma_described(d.attributes, features, o.attributes, conformance::shown_attribute(0x0001, None), 1);
    conformance::lemma_described(d.attributes, features, o.attributes, conformance::shown_attribute(0x0002, None), 2);
    conformance::lemma_described(d.attributes, features, o.attributes, conformance::shown_attribute(0x0003, None), 3);
    conformance::lemma_described(d.attributes, features, o.attributes, conformance::shown_attribute(0x0004, None), 4);
    conformance::lemma_described(d.attributes, features, o.attributes, conformance::shown_attribute(0x0005, None), 5);
    conformance::lemma_described(d.attributes, features, o.attributes, conformance::shown_attribute(0x0006, None), 6);
    conformance::lemma_described(d.attributes, features, o.attributes, conformance::shown_attribute(0x0007, None), 7);
    conformance::lemma_described(d.attributes, features, o.attributes, conformance::shown_attribute(0x0008, None), 8);
    conformance::lemma_described(d.attributes, features, o.attributes, conformance::shown_attribute(0x0009, None), 9);
    conformance::lemma_described(d.attributes, features, o.attributes, conformance::shown_attribute(0x000A, None), 10);
    conformance::lemma_described(d.attributes, features, o.attributes, conformance::shown_attribute(0x000B, None), 11);
    conformance::lemma_described(d.attributes, features, o.attributes, conformance::shown_attribute(0x000C, None), 12);
    conformance::lemma_described(d.attributes, features, o.attributes, conformance::shown_attribute(0x000D, None), 13);
    conformance::lemma_described(d.attributes, features, o.attributes, conformance::shown_attribute(0x000E, None), 14);
    conformance::lemma_described(d.attributes, features, o.attributes, conformance::shown_attribute(0x000F, None), 15);
    conformance::lemma_described(d.attributes, features, o.attributes, conformance::shown_attribute(0x0010, None), 16);
    conformance::lemma_described(d.attributes, features, o.attributes, conformance::shown_attribute(0x0011, None), 17);
    conformance::lemma_described(d.attributes, features, o.attributes, conformance::shown_attribute(0x0012, None), 18);
    conformance::lemma_described(d.events, features, o.events, conformance::shown_event(0x00, EventPriority::Info), 0);
    conformance::lemma_at_most(d.attributes, features, o.attributes, d.attributes.len() as int);
    conformance::lemma_at_most(d.commands, features, o.commands, d.commands.len() as int);
    conformance::lemma_at_most(d.events, features, o.events, d.events.len() as int);
}

} // verus!
