//! Electrical measurement: what a meter reads, what it has added up, and what it is connected to.

use vstd::prelude::*;

use crate::tlv;
use crate::tlv::{Numbered, Tag, ToTlv};

pub mod energy;
pub mod power;
pub mod topology;

verus! {

/// What is measured.
#[derive(Debug, Clone, Copy, PartialEq, Eq, Structural)]
pub enum MeasurementTypeEnum {
    /// Nothing in particular.
    Unspecified,
    /// Voltage.
    Voltage,
    /// Active current.
    ActiveCurrent,
    /// Reactive current.
    ReactiveCurrent,
    /// Apparent current.
    ApparentCurrent,
    /// Active power.
    ActivePower,
    /// Reactive power.
    ReactivePower,
    /// Apparent power.
    ApparentPower,
    /// Root mean square voltage.
    RmsVoltage,
    /// Root mean square current.
    RmsCurrent,
    /// Root mean square power.
    RmsPower,
    /// Frequency.
    Frequency,
    /// Power factor.
    PowerFactor,
    /// Neutral current.
    NeutralCurrent,
    /// Electrical energy.
    ElectricalEnergy,
}

impl Numbered for MeasurementTypeEnum {
    open spec fn number(self) -> u64 {
        match self {
            MeasurementTypeEnum::Unspecified => 0,
            MeasurementTypeEnum::Voltage => 1,
            MeasurementTypeEnum::ActiveCurrent => 2,
            MeasurementTypeEnum::ReactiveCurrent => 3,
            MeasurementTypeEnum::ApparentCurrent => 4,
            MeasurementTypeEnum::ActivePower => 5,
            MeasurementTypeEnum::ReactivePower => 6,
            MeasurementTypeEnum::ApparentPower => 7,
            MeasurementTypeEnum::RmsVoltage => 8,
            MeasurementTypeEnum::RmsCurrent => 9,
            MeasurementTypeEnum::RmsPower => 10,
            MeasurementTypeEnum::Frequency => 11,
            MeasurementTypeEnum::PowerFactor => 12,
            MeasurementTypeEnum::NeutralCurrent => 13,
            MeasurementTypeEnum::ElectricalEnergy => 14,
        }
    }

    fn as_number(self) -> (v: u64) {
        match self {
            MeasurementTypeEnum::Unspecified => 0,
            MeasurementTypeEnum::Voltage => 1,
            MeasurementTypeEnum::ActiveCurrent => 2,
            MeasurementTypeEnum::ReactiveCurrent => 3,
            MeasurementTypeEnum::ApparentCurrent => 4,
            MeasurementTypeEnum::ActivePower => 5,
            MeasurementTypeEnum::ReactivePower => 6,
            MeasurementTypeEnum::ApparentPower => 7,
            MeasurementTypeEnum::RmsVoltage => 8,
            MeasurementTypeEnum::RmsCurrent => 9,
            MeasurementTypeEnum::RmsPower => 10,
            MeasurementTypeEnum::Frequency => 11,
            MeasurementTypeEnum::PowerFactor => 12,
            MeasurementTypeEnum::NeutralCurrent => 13,
            MeasurementTypeEnum::ElectricalEnergy => 14,
        }
    }
}

/// How exact a measurement is within a range.
#[derive(Debug, Clone, Copy, PartialEq, Eq, Structural)]
pub struct MeasurementAccuracyRangeStruct {
    /// From this value.
    pub range_min: i64,
    /// To this value.
    pub range_max: i64,
    /// At most this far off, in hundredths of a percent.
    pub percent_max: Option<u64>,
    /// At least this far off, in hundredths of a percent.
    pub percent_min: Option<u64>,
    /// Typically this far off, in hundredths of a percent.
    pub percent_typical: Option<u64>,
    /// At most this far off.
    pub fixed_max: Option<u64>,
    /// At least this far off.
    pub fixed_min: Option<u64>,
    /// Typically this far off.
    pub fixed_typical: Option<u64>,
}

impl MeasurementAccuracyRangeStruct {
    /// The fields, on the wire.
    pub open spec fn body(self) -> Seq<u8> {
        tlv::signed_bytes(Tag::Context(0), self.range_min) + tlv::signed_bytes(Tag::Context(1), self.range_max)
            + tlv::optional_bytes(Tag::Context(2), self.percent_max) + tlv::optional_bytes(Tag::Context(3), self.percent_min)
            + tlv::optional_bytes(Tag::Context(4), self.percent_typical) + tlv::optional_bytes(
            Tag::Context(5),
            self.fixed_max,
        ) + tlv::optional_bytes(Tag::Context(6), self.fixed_min) + tlv::optional_bytes(Tag::Context(7), self.fixed_typical)
    }
}

impl ToTlv for MeasurementAccuracyRangeStruct {
    open spec fn tlv(self, tag: Tag) -> Seq<u8> {
        tlv::structure_bytes(tag, self.body())
    }

    fn to_tlv(&self, out: &mut Vec<u8>, tag: Tag) {
        let mut body: Vec<u8> = Vec::new();
        tlv::put_signed(&mut body, Tag::Context(0), self.range_min);
        tlv::put_signed(&mut body, Tag::Context(1), self.range_max);
        tlv::put_optional(&mut body, Tag::Context(2), self.percent_max);
        tlv::put_optional(&mut body, Tag::Context(3), self.percent_min);
        tlv::put_optional(&mut body, Tag::Context(4), self.percent_typical);
        tlv::put_optional(&mut body, Tag::Context(5), self.fixed_max);
        tlv::put_optional(&mut body, Tag::Context(6), self.fixed_min);
        tlv::put_optional(&mut body, Tag::Context(7), self.fixed_typical);
        proof {
            assert(body@ =~= self.body());
        }
        tlv::put_structure(out, tag, &body);
    }
}

/// How exact a measurement is.
#[derive(Debug, Clone, Copy)]
pub struct MeasurementAccuracyStruct<'a> {
    /// What is measured.
    pub measurement_type: MeasurementTypeEnum,
    /// Whether it is measured rather than estimated.
    pub measured: bool,
    /// The least value that is measured.
    pub min_measured_value: i64,
    /// The greatest value that is measured.
    pub max_measured_value: i64,
    /// How exact it is, range by range.
    pub accuracy_ranges: &'a [MeasurementAccuracyRangeStruct],
}

impl<'a> MeasurementAccuracyStruct<'a> {
    /// The fields, on the wire.
    pub open spec fn body(self) -> Seq<u8> {
        tlv::unsigned_bytes(Tag::Context(0), self.measurement_type.number()) + tlv::bool_bytes(Tag::Context(1), self.measured)
            + tlv::signed_bytes(Tag::Context(2), self.min_measured_value) + tlv::signed_bytes(
            Tag::Context(3),
            self.max_measured_value,
        ) + tlv::members_bytes(Tag::Context(4), self.accuracy_ranges@)
    }
}

impl<'a> ToTlv for MeasurementAccuracyStruct<'a> {
    open spec fn tlv(self, tag: Tag) -> Seq<u8> {
        tlv::structure_bytes(tag, self.body())
    }

    fn to_tlv(&self, out: &mut Vec<u8>, tag: Tag) {
        let mut body: Vec<u8> = Vec::new();
        tlv::put_unsigned(&mut body, Tag::Context(0), self.measurement_type.as_number());
        tlv::put_bool(&mut body, Tag::Context(1), self.measured);
        tlv::put_signed(&mut body, Tag::Context(2), self.min_measured_value);
        tlv::put_signed(&mut body, Tag::Context(3), self.max_measured_value);
        tlv::put_members(&mut body, Tag::Context(4), self.accuracy_ranges);
        proof {
            assert(body@ =~= self.body());
        }
        tlv::put_structure(out, tag, &body);
    }
}

/// The value on the wire, or null.
pub open spec fn nullable<T: ToTlv>(tag: Tag, v: Option<T>) -> Seq<u8> {
    match v {
        Some(v) => v.tlv(tag),
        None => tlv::null_bytes(tag),
    }
}

/// The value on the wire, or null.
pub fn encode_nullable<T: ToTlv>(tag: Tag, v: &Option<T>) -> (out: Vec<u8>)
    ensures
        out@ == nullable(tag, *v),
{
    let mut out: Vec<u8> = Vec::new();
    match v {
        Some(x) => x.to_tlv(&mut out, tag),
        None => tlv::put_null(&mut out, tag),
    }
    proof {
        assert(out@ =~= nullable(tag, *v));
    }
    out
}

/// A number under a field's tag, where there is one.
pub open spec fn field(t: u8, v: Option<u64>) -> Seq<u8> {
    match v {
        Some(v) => tlv::unsigned_bytes(Tag::Context(t), v),
        None => Seq::empty(),
    }
}

/// The number that a kind of measurement stands for.
pub open spec fn kind_number(k: MeasurementTypeEnum) -> u64 {
    match k {
        MeasurementTypeEnum::Unspecified => 0,
        MeasurementTypeEnum::Voltage => 1,
        MeasurementTypeEnum::ActiveCurrent => 2,
        MeasurementTypeEnum::ReactiveCurrent => 3,
        MeasurementTypeEnum::ApparentCurrent => 4,
        MeasurementTypeEnum::ActivePower => 5,
        MeasurementTypeEnum::ReactivePower => 6,
        MeasurementTypeEnum::ApparentPower => 7,
        MeasurementTypeEnum::RmsVoltage => 8,
        MeasurementTypeEnum::RmsCurrent => 9,
        MeasurementTypeEnum::RmsPower => 10,
        MeasurementTypeEnum::Frequency => 11,
        MeasurementTypeEnum::PowerFactor => 12,
        MeasurementTypeEnum::NeutralCurrent => 13,
        MeasurementTypeEnum::ElectricalEnergy => 14,
    }
}

/// How exact a measurement is shows with its kind, whether it is measured, its bounds, and every range in order; and a range with
/// its bounds and each of its margins that it has.
pub proof fn law_accuracy_is_shown(a: MeasurementAccuracyStruct<'_>, r: MeasurementAccuracyRangeStruct, tag: Tag)
    ensures
        a.tlv(tag) == tlv::structure_bytes(
            tag,
            tlv::unsigned_bytes(Tag::Context(0), kind_number(a.measurement_type)) + tlv::bool_bytes(Tag::Context(1), a.measured)
                + tlv::signed_bytes(Tag::Context(2), a.min_measured_value) + tlv::signed_bytes(
                Tag::Context(3),
                a.max_measured_value,
            ) + tlv::array_bytes(
                Tag::Context(4),
                tlv::concat(a.accuracy_ranges@, |x: MeasurementAccuracyRangeStruct| x.tlv(Tag::Anonymous)),
            ),
        ),
        r.tlv(tag) == tlv::structure_bytes(
            tag,
            tlv::signed_bytes(Tag::Context(0), r.range_min) + tlv::signed_bytes(Tag::Context(1), r.range_max) + field(
                2,
                r.percent_max,
            ) + field(3, r.percent_min) + field(4, r.percent_typical) + field(5, r.fixed_max) + field(6, r.fixed_min) + field(
                7,
                r.fixed_typical,
            ),
        ),
{
    assert(tlv::member_bytes::<MeasurementAccuracyRangeStruct>() =~= |x: MeasurementAccuracyRangeStruct| x.tlv(Tag::Anonymous));
}

} // verus!
