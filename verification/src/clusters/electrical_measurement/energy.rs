//! Electrical Energy Measurement, cluster `0x0091`: what a meter has added up.

use vstd::prelude::*;

use super::{encode_nullable, MeasurementAccuracyStruct};
use crate::clusters::dispatch::Cluster;
use crate::clusters::electrical_measurement;
use crate::conformance;
use crate::conformance::{Conformance, Conforming, Definition, DefinitionModel, Optional};
use crate::dm::EventPriority;
use crate::error::ErrorCode;
use crate::im;
use crate::im::{
    AttributeId, ClusterHandler, ClusterId, EventId, InteractionContext, InvokeAnswer, Lifecycle, ReadAnswer, Reply, Resolved,
    ResolvedCommand, Status, StatusIb, WriteOp,
};
use crate::tlv;
use crate::tlv::{Tag, ToTlv};

verus! {

/// The cluster.
pub const ID: ClusterId = 0x0091;

/// Its revision.
pub const REVISION: u16 = 1;

/// `IMPE`: energy that comes in.
pub const IMPORTED_ENERGY: u32 = 0x01;

/// `EXPE`: energy that goes out.
pub const EXPORTED_ENERGY: u32 = 0x02;

/// `CUME`: totals.
pub const CUMULATIVE_ENERGY: u32 = 0x04;

/// `PERE`: periods.
pub const PERIODIC_ENERGY: u32 = 0x08;

/// `Accuracy`.
pub const ACCURACY: AttributeId = 0x0000;

/// `CumulativeEnergyImported`.
pub const CUMULATIVE_ENERGY_IMPORTED: AttributeId = 0x0001;

/// `CumulativeEnergyExported`.
pub const CUMULATIVE_ENERGY_EXPORTED: AttributeId = 0x0002;

/// `PeriodicEnergyImported`.
pub const PERIODIC_ENERGY_IMPORTED: AttributeId = 0x0003;

/// `PeriodicEnergyExported`.
pub const PERIODIC_ENERGY_EXPORTED: AttributeId = 0x0004;

/// `CumulativeEnergyReset`.
pub const CUMULATIVE_ENERGY_RESET: AttributeId = 0x0005;

/// `CumulativeEnergyMeasured`.
pub const CUMULATIVE_ENERGY_MEASURED: EventId = 0x00;

/// `PeriodicEnergyMeasured`.
pub const PERIODIC_ENERGY_MEASURED: EventId = 0x01;

/// An amount of energy and the time in which it was measured.
#[derive(Debug, Clone, Copy, PartialEq, Eq, Structural)]
pub struct EnergyMeasurementStruct {
    /// The energy, in milliwatt hours.
    pub energy: i64,
    /// When the measurement began.
    pub start_timestamp: Option<u64>,
    /// When it ended.
    pub end_timestamp: Option<u64>,
    /// When it began, since the device did.
    pub start_systime: Option<u64>,
    /// When it ended, since the device began.
    pub end_systime: Option<u64>,
}

impl EnergyMeasurementStruct {
    /// The fields, on the wire.
    pub open spec fn body(self) -> Seq<u8> {
        tlv::signed_bytes(Tag::Context(0), self.energy) + tlv::optional_bytes(Tag::Context(1), self.start_timestamp)
            + tlv::optional_bytes(Tag::Context(2), self.end_timestamp) + tlv::optional_bytes(
            Tag::Context(3),
            self.start_systime,
        ) + tlv::optional_bytes(Tag::Context(4), self.end_systime)
    }
}

impl ToTlv for EnergyMeasurementStruct {
    open spec fn tlv(self, tag: Tag) -> Seq<u8> {
        tlv::structure_bytes(tag, self.body())
    }

    fn to_tlv(&self, out: &mut Vec<u8>, tag: Tag) {
        let mut body: Vec<u8> = Vec::new();
        tlv::put_signed(&mut body, Tag::Context(0), self.energy);
        tlv::put_optional(&mut body, Tag::Context(1), self.start_timestamp);
        tlv::put_optional(&mut body, Tag::Context(2), self.end_timestamp);
        tlv::put_optional(&mut body, Tag::Context(3), self.start_systime);
        tlv::put_optional(&mut body, Tag::Context(4), self.end_systime);
        proof {
            assert(body@ =~= self.body());
        }
        tlv::put_structure(out, tag, &body);
    }
}

/// When the totals were last set to zero.
#[derive(Debug, Clone, Copy, PartialEq, Eq, Structural)]
pub struct CumulativeEnergyResetStruct {
    /// That of what came in.
    pub imported_reset_timestamp: Option<u64>,
    /// That of what went out.
    pub exported_reset_timestamp: Option<u64>,
    /// That of what came in, since the device began.
    pub imported_reset_systime: Option<u64>,
    /// That of what went out, since the device began.
    pub exported_reset_systime: Option<u64>,
}

impl CumulativeEnergyResetStruct {
    /// The fields, on the wire.
    pub open spec fn body(self) -> Seq<u8> {
        tlv::optional_bytes(Tag::Context(0), self.imported_reset_timestamp) + tlv::optional_bytes(
            Tag::Context(1),
            self.exported_reset_timestamp,
        ) + tlv::optional_bytes(Tag::Context(2), self.imported_reset_systime) + tlv::optional_bytes(
            Tag::Context(3),
            self.exported_reset_systime,
        )
    }
}

impl ToTlv for CumulativeEnergyResetStruct {
    open spec fn tlv(self, tag: Tag) -> Seq<u8> {
        tlv::structure_bytes(tag, self.body())
    }

    fn to_tlv(&self, out: &mut Vec<u8>, tag: Tag) {
        let mut body: Vec<u8> = Vec::new();
        tlv::put_optional(&mut body, Tag::Context(0), self.imported_reset_timestamp);
        tlv::put_optional(&mut body, Tag::Context(1), self.exported_reset_timestamp);
        tlv::put_optional(&mut body, Tag::Context(2), self.imported_reset_systime);
        tlv::put_optional(&mut body, Tag::Context(3), self.exported_reset_systime);
        proof {
            assert(body@ =~= self.body());
        }
        tlv::put_structure(out, tag, &body);
    }
}

/// What a meter has added up.
pub trait EnergyMeterHooks {
    /// How exact it is.
    fn accuracy(&self) -> MeasurementAccuracyStruct<'_>;

    /// The total that came in.
    fn cumulative_imported(&self) -> (r: Option<EnergyMeasurementStruct>)
        default_ensures
            r is None,
    {
        None
    }

    /// The total that went out.
    fn cumulative_exported(&self) -> (r: Option<EnergyMeasurementStruct>)
        default_ensures
            r is None,
    {
        None
    }

    /// What came in over the period.
    fn periodic_imported(&self) -> (r: Option<EnergyMeasurementStruct>)
        default_ensures
            r is None,
    {
        None
    }

    /// What went out over the period.
    fn periodic_exported(&self) -> (r: Option<EnergyMeasurementStruct>)
        default_ensures
            r is None,
    {
        None
    }

    /// When the totals were last set to zero.
    fn cumulative_reset(&self) -> (r: Option<CumulativeEnergyResetStruct>)
        default_ensures
            r is None,
    {
        None
    }
}

/// The cluster's definition.
pub open spec fn defined() -> DefinitionModel {
    DefinitionModel {
        id: ID,
        revision: REVISION,
        features: 0x0F,
        attributes: seq![
            conformance::reads(ACCURACY, Conformance::Mandatory),
            conformance::reads(CUMULATIVE_ENERGY_IMPORTED, Conformance::WithAll(0x05)),
            conformance::reads(CUMULATIVE_ENERGY_EXPORTED, Conformance::WithAll(0x06)),
            conformance::reads(PERIODIC_ENERGY_IMPORTED, Conformance::WithAll(0x09)),
            conformance::reads(PERIODIC_ENERGY_EXPORTED, Conformance::WithAll(0x0A)),
            conformance::reads(CUMULATIVE_ENERGY_RESET, Conformance::OptionalWith(CUMULATIVE_ENERGY)),
        ],
        commands: Seq::empty(),
        generated: Seq::empty(),
        events: seq![
            conformance::tells(CUMULATIVE_ENERGY_MEASURED, EventPriority::Info, Conformance::With(CUMULATIVE_ENERGY)),
            conformance::tells(PERIODIC_ENERGY_MEASURED, EventPriority::Info, Conformance::With(PERIODIC_ENERGY)),
        ],
    }
}

/// The cluster's definition.
pub fn definition() -> (d: Definition)
    ensures
        d@ == defined(),
{
    let d: Definition = Definition {
        id: ID,
        revision: REVISION,
        features: 0x0F,
        attributes: vec![
            conformance::readable(ACCURACY, Conformance::Mandatory),
            conformance::readable(CUMULATIVE_ENERGY_IMPORTED, Conformance::WithAll(0x05)),
            conformance::readable(CUMULATIVE_ENERGY_EXPORTED, Conformance::WithAll(0x06)),
            conformance::readable(PERIODIC_ENERGY_IMPORTED, Conformance::WithAll(0x09)),
            conformance::readable(PERIODIC_ENERGY_EXPORTED, Conformance::WithAll(0x0A)),
            conformance::readable(CUMULATIVE_ENERGY_RESET, Conformance::OptionalWith(CUMULATIVE_ENERGY)),
        ],
        commands: Vec::new(),
        generated: Vec::new(),
        events: vec![
            conformance::event(CUMULATIVE_ENERGY_MEASURED, EventPriority::Info, Conformance::With(CUMULATIVE_ENERGY)),
            conformance::event(PERIODIC_ENERGY_MEASURED, EventPriority::Info, Conformance::With(PERIODIC_ENERGY)),
        ],
    };
    proof {
        assert(d@.attributes =~= defined().attributes);
        assert(d@.events =~= defined().events);
    }
    d
}

/// A reading, given what the meter says; null where it says nothing.
pub open spec fn reading_answer<T: ToTlv>(tag: Tag, v: Option<T>) -> ReadAnswer {
    Ok(electrical_measurement::nullable(tag, v))
}

/// How exact the meter is, given what it says.
pub open spec fn accuracy_answer(tag: Tag, v: MeasurementAccuracyStruct) -> ReadAnswer {
    Ok(v.tlv(tag))
}

/// A reading, given what the meter says; null where it says nothing.
pub fn encode_reading<T: ToTlv>(tag: Tag, v: Option<T>) -> (a: Result<Vec<u8>, Status>)
    ensures
        im::read_answer(a) == reading_answer(tag, v),
{
    Ok(encode_nullable(tag, &v))
}

/// How exact the meter is, given what it says.
pub fn encode_accuracy(tag: Tag, v: MeasurementAccuracyStruct<'_>) -> (a: Result<Vec<u8>, Status>)
    ensures
        im::read_answer(a) == accuracy_answer(tag, v),
{
    let mut out: Vec<u8> = Vec::new();
    v.to_tlv(&mut out, tag);
    proof {
        assert(out@ =~= v.tlv(tag));
    }
    Ok(out)
}

/// Electrical Energy Measurement over a meter.
pub struct ElectricalEnergyMeasurement<'a, H: EnergyMeterHooks> {
    /// The meter.
    pub hooks: &'a H,
}

impl<'a, H: EnergyMeterHooks> ElectricalEnergyMeasurement<'a, H> {
    /// A cluster over a meter.
    pub fn new(hooks: &'a H) -> (c: Self)
        ensures
            c.hooks == hooks,
    {
        ElectricalEnergyMeasurement { hooks }
    }

    /// The description for features and for what the product chooses.
    pub fn conforming(features: u32, optional: &Optional) -> (r: Result<Conforming, ErrorCode>)
        ensures
            conformance::outcome(r) == conformance::conform(defined(), features, optional@),
    {
        Conforming::new(&definition(), features, optional)
    }
}

impl<'a, H: EnergyMeterHooks> Cluster for ElectricalEnergyMeasurement<'a, H> {
    const ID: ClusterId = ID;
}

impl<'a, H: EnergyMeterHooks> ClusterHandler for ElectricalEnergyMeasurement<'a, H> {
    open spec fn answers(&self, resolved: Resolved, ctx: InteractionContext, tag: Tag, a: ReadAnswer) -> bool {
        let id = resolved.attribute;
        if id == ACCURACY {
            exists|v: MeasurementAccuracyStruct<'_>| #[trigger]
                call_ensures(H::accuracy, (self.hooks,), v) && a == accuracy_answer(tag, v)
        } else if id == CUMULATIVE_ENERGY_IMPORTED {
            exists|v: Option<EnergyMeasurementStruct>| #[trigger]
                call_ensures(H::cumulative_imported, (self.hooks,), v) && a == reading_answer(tag, v)
        } else if id == CUMULATIVE_ENERGY_EXPORTED {
            exists|v: Option<EnergyMeasurementStruct>| #[trigger]
                call_ensures(H::cumulative_exported, (self.hooks,), v) && a == reading_answer(tag, v)
        } else if id == PERIODIC_ENERGY_IMPORTED {
            exists|v: Option<EnergyMeasurementStruct>| #[trigger]
                call_ensures(H::periodic_imported, (self.hooks,), v) && a == reading_answer(tag, v)
        } else if id == PERIODIC_ENERGY_EXPORTED {
            exists|v: Option<EnergyMeasurementStruct>| #[trigger]
                call_ensures(H::periodic_exported, (self.hooks,), v) && a == reading_answer(tag, v)
        } else if id == CUMULATIVE_ENERGY_RESET {
            exists|v: Option<CumulativeEnergyResetStruct>| #[trigger]
                call_ensures(H::cumulative_reset, (self.hooks,), v) && a == reading_answer(tag, v)
        } else {
            a == Err::<Seq<u8>, Status>(Status::UnsupportedAttribute)
        }
    }

    open spec fn writes(
        before: &Self,
        after: &Self,
        resolved: Resolved,
        data: Seq<u8>,
        op: WriteOp,
        ctx: InteractionContext,
        r: Result<(), Status>,
    ) -> bool {
        *after == *before && r == Err::<(), Status>(Status::UnsupportedWrite)
    }

    open spec fn invokes(
        before: &Self,
        after: &Self,
        resolved: ResolvedCommand,
        fields: Option<Seq<u8>>,
        ctx: InteractionContext,
        tag: Tag,
        a: InvokeAnswer,
    ) -> bool {
        *after == *before && a == im::refused(Status::UnsupportedCommand)
    }

    open spec fn outlives(before: &Self, after: &Self, event: Lifecycle) -> bool {
        *after == *before
    }

    open spec fn unfit(&self, resolved: ResolvedCommand) -> Status {
        Status::Failure
    }

    fn answer(&self, resolved: &Resolved, ctx: &InteractionContext, tag: Tag) -> (a: Result<Vec<u8>, Status>) {
        match resolved.attribute {
            ACCURACY => encode_accuracy(tag, self.hooks.accuracy()),
            CUMULATIVE_ENERGY_IMPORTED => encode_reading(tag, self.hooks.cumulative_imported()),
            CUMULATIVE_ENERGY_EXPORTED => encode_reading(tag, self.hooks.cumulative_exported()),
            PERIODIC_ENERGY_IMPORTED => encode_reading(tag, self.hooks.periodic_imported()),
            PERIODIC_ENERGY_EXPORTED => encode_reading(tag, self.hooks.periodic_exported()),
            CUMULATIVE_ENERGY_RESET => encode_reading(tag, self.hooks.cumulative_reset()),
            _ => Err(Status::UnsupportedAttribute),
        }
    }

    fn write(&mut self, resolved: &Resolved, data: &[u8], op: WriteOp, ctx: &InteractionContext) -> (r: Result<(), Status>) {
        Err(Status::UnsupportedWrite)
    }

    fn perform(
        &mut self,
        resolved: &ResolvedCommand,
        fields: Option<&[u8]>,
        ctx: &InteractionContext,
        tag: Tag,
    ) -> (a: Result<Reply, StatusIb>) {
        im::refuse(Status::UnsupportedCommand)
    }

    fn on_lifecycle(&mut self, event: Lifecycle) {
    }

    fn unfit_status(&self, resolved: &ResolvedCommand) -> (s: Status) {
        Status::Failure
    }
}

/// A total that is not there never reads as one.
pub proof fn law_no_total_is_not_a_total(tag: Tag, v: EnergyMeasurementStruct)
    ensures
        reading_answer::<EnergyMeasurementStruct>(tag, None) != reading_answer(tag, Some(v)),
{
    let a = tlv::null_bytes(tag);
    let b = v.tlv(tag);
    assert(a[0] != b[0]);
}

/// What a read shows is what the meter says: each total and each period under its own number with its energy and its times, when
/// the totals were set to zero, and null where the meter says nothing.
pub proof fn law_energy_is_read_as_it_is<'a, H: EnergyMeterHooks>(
    c: ElectricalEnergyMeasurement<'a, H>,
    resolved: Resolved,
    ctx: InteractionContext,
    tag: Tag,
    a: ReadAnswer,
)
    requires
        c.answers(resolved, ctx, tag, a),
    ensures
        ({
            let shown = |v: Option<EnergyMeasurementStruct>|
                a == Ok::<Seq<u8>, Status>(
                    match v {
                        Some(e) => tlv::structure_bytes(
                            tag,
                            tlv::signed_bytes(Tag::Context(0), e.energy) + super::field(1, e.start_timestamp)
                                + super::field(2, e.end_timestamp) + super::field(
                                3,
                                e.start_systime,
                            ) + super::field(4, e.end_systime),
                        ),
                        None => tlv::null_bytes(tag),
                    },
                );
            &&& resolved.attribute == 0x0000 ==> exists|v: MeasurementAccuracyStruct<'_>| #[trigger]
                call_ensures(H::accuracy, (c.hooks,), v) && a == Ok::<Seq<u8>, Status>(v.tlv(tag))
            &&& resolved.attribute == 0x0001 ==> exists|v: Option<EnergyMeasurementStruct>| #[trigger]
                call_ensures(H::cumulative_imported, (c.hooks,), v) && shown(v)
            &&& resolved.attribute == 0x0002 ==> exists|v: Option<EnergyMeasurementStruct>| #[trigger]
                call_ensures(H::cumulative_exported, (c.hooks,), v) && shown(v)
            &&& resolved.attribute == 0x0003 ==> exists|v: Option<EnergyMeasurementStruct>| #[trigger]
                call_ensures(H::periodic_imported, (c.hooks,), v) && shown(v)
            &&& resolved.attribute == 0x0004 ==> exists|v: Option<EnergyMeasurementStruct>| #[trigger]
                call_ensures(H::periodic_exported, (c.hooks,), v) && shown(v)
            &&& resolved.attribute == 0x0005 ==> exists|v: Option<CumulativeEnergyResetStruct>| #[trigger]
                call_ensures(H::cumulative_reset, (c.hooks,), v) && a == Ok::<Seq<u8>, Status>(
                    match v {
                        Some(e) => tlv::structure_bytes(
                            tag,
                            super::field(0, e.imported_reset_timestamp) + super::field(
                                1,
                                e.exported_reset_timestamp,
                            ) + super::field(2, e.imported_reset_systime) + super::field(
                                3,
                                e.exported_reset_systime,
                            ),
                        ),
                        None => tlv::null_bytes(tag),
                    },
                )
        }),
{
}

/// How the cluster describes itself follows from the features and from what the product chooses: each attribute, command and event
/// is there exactly where they say so, with who may read, write or invoke it, and nothing else is.
pub proof fn law_the_cluster_describes_itself(features: u32, o: conformance::OptionalModel, c: crate::dm::ClusterModel)
    requires
        conformance::conform(defined(), features, o) == Ok::<crate::dm::ClusterModel, ErrorCode>(c),
    ensures
        c.id == 0x0091,
        c.revision == 1,
        c.feature_map == features,
        features & !0x0Fu32 == 0,
        c.attributes.contains(conformance::shown_attribute(0x0000, None)) == (true),
        c.attributes.contains(conformance::shown_attribute(0x0001, None)) == (features & 0x05 == 0x05),
        c.attributes.contains(conformance::shown_attribute(0x0002, None)) == (features & 0x06 == 0x06),
        c.attributes.contains(conformance::shown_attribute(0x0003, None)) == (features & 0x09 == 0x09),
        c.attributes.contains(conformance::shown_attribute(0x0004, None)) == (features & 0x0A == 0x0A),
        c.attributes.contains(conformance::shown_attribute(0x0005, None)) == ((features & 0x04 != 0 && o.attributes.contains(0x0005))),
        c.events.contains(conformance::shown_event(0x00, EventPriority::Info)) == (features & 0x04 != 0),
        c.events.contains(conformance::shown_event(0x01, EventPriority::Info)) == (features & 0x08 != 0),
        c.attributes.len() <= 6,
        c.accepted_commands.len() <= 0,
        c.events.len() <= 2,
{
    let d = defined();
    assert(conformance::told_apart(d.attributes));
    assert(conformance::told_apart(d.commands));
    assert(conformance::told_apart(d.events));
    conformance::lemma_described(d.attributes, features, o.attributes, conformance::shown_attribute(0x0000, None), 0);
    conformance::lemma_described(d.attributes, features, o.attributes, conformance::shown_attribute(0x0001, None), 1);
    conformance::lemma_described(d.attributes, features, o.attributes, conformance::shown_attribute(0x0002, None), 2);
    conformance::lemma_described(d.attributes, features, o.attributes, conformance::shown_attribute(0x0003, None), 3);
    conformance::lemma_described(d.attributes, features, o.attributes, conformance::shown_attribute(0x0004, None), 4);
    conformance::lemma_described(d.attributes, features, o.attributes, conformance::shown_attribute(0x0005, None), 5);
    conformance::lemma_described(d.events, features, o.events, conformance::shown_event(0x00, EventPriority::Info), 0);
    conformance::lemma_described(d.events, features, o.events, conformance::shown_event(0x01, EventPriority::Info), 1);
    conformance::lemma_at_most(d.attributes, features, o.attributes, d.attributes.len() as int);
    conformance::lemma_at_most(d.commands, features, o.commands, d.commands.len() as int);
    conformance::lemma_at_most(d.events, features, o.events, d.events.len() as int);
}

} // verus!
