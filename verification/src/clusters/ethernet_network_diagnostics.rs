//! Ethernet Network Diagnostics, cluster `0x0037`: what an interface measures of itself.
//!
//! A value, a null that says the interface is down, and an attribute that is not there at all are
//! three answers. A counter whose feature is not claimed is not there, and is not zero.

use vstd::prelude::*;

use crate::clusters::dispatch::Cluster;
use crate::clusters::ethernet_network_diagnostics::recorded::Recorded;
use crate::conformance;
use crate::conformance::{Conformance, Conforming, Definition, DefinitionModel, Optional, OptionalModel};
use crate::dm::Privilege;
use crate::error::ErrorCode;
use crate::im;
use crate::im::{
    AttributeId, ClusterHandler, ClusterId, CommandId, InteractionContext, InvokeAnswer, Lifecycle, ReadAnswer, Reply, Resolved,
    ResolvedCommand, Status, StatusIb, WriteOp,
};
use crate::tlv;
use crate::tlv::{Numbered, Tag};

pub mod recorded;

verus! {

/// The cluster.
pub const ID: ClusterId = 0x0037;

/// Its revision.
pub const REVISION: u16 = 1;

/// `PKTCNT`: packets are counted.
pub const PACKET_COUNTS: u32 = 0x01;

/// `ERRCNT`: errors are counted.
pub const ERROR_COUNTS: u32 = 0x02;

/// `PHYRate`.
pub const PHY_RATE: AttributeId = 0x0000;

/// `FullDuplex`.
pub const FULL_DUPLEX: AttributeId = 0x0001;

/// `PacketRxCount`.
pub const PACKET_RX_COUNT: AttributeId = 0x0002;

/// `PacketTxCount`.
pub const PACKET_TX_COUNT: AttributeId = 0x0003;

/// `TxErrCount`.
pub const TX_ERR_COUNT: AttributeId = 0x0004;

/// `CollisionCount`.
pub const COLLISION_COUNT: AttributeId = 0x0005;

/// `OverrunCount`.
pub const OVERRUN_COUNT: AttributeId = 0x0006;

/// `CarrierDetect`.
pub const CARRIER_DETECT: AttributeId = 0x0007;

/// `TimeSinceReset`.
pub const TIME_SINCE_RESET: AttributeId = 0x0008;

/// `ResetCounts`.
pub const RESET_COUNTS: CommandId = 0x00;

/// How fast a link is.
#[derive(Debug, Clone, Copy, PartialEq, Eq, Structural)]
pub enum PHYRateEnum {
    /// 10 Mbit/s.
    Rate10M,
    /// 100 Mbit/s.
    Rate100M,
    /// 1 Gbit/s.
    Rate1G,
    /// 2.5 Gbit/s.
    Rate25G,
    /// 5 Gbit/s.
    Rate5G,
    /// 10 Gbit/s.
    Rate10G,
    /// 40 Gbit/s.
    Rate40G,
    /// 100 Gbit/s.
    Rate100G,
    /// 200 Gbit/s.
    Rate200G,
    /// 400 Gbit/s.
    Rate400G,
}

impl Numbered for PHYRateEnum {
    open spec fn number(self) -> u64 {
        match self {
            PHYRateEnum::Rate10M => 0,
            PHYRateEnum::Rate100M => 1,
            PHYRateEnum::Rate1G => 2,
            PHYRateEnum::Rate25G => 3,
            PHYRateEnum::Rate5G => 4,
            PHYRateEnum::Rate10G => 5,
            PHYRateEnum::Rate40G => 6,
            PHYRateEnum::Rate100G => 7,
            PHYRateEnum::Rate200G => 8,
            PHYRateEnum::Rate400G => 9,
        }
    }

    fn as_number(self) -> (v: u64) {
        match self {
            PHYRateEnum::Rate10M => 0,
            PHYRateEnum::Rate100M => 1,
            PHYRateEnum::Rate1G => 2,
            PHYRateEnum::Rate25G => 3,
            PHYRateEnum::Rate5G => 4,
            PHYRateEnum::Rate10G => 5,
            PHYRateEnum::Rate40G => 6,
            PHYRateEnum::Rate100G => 7,
            PHYRateEnum::Rate200G => 8,
            PHYRateEnum::Rate400G => 9,
        }
    }
}

/// What a driver can say of an attribute.
#[derive(Debug, Clone, Copy, PartialEq, Eq, Structural)]
pub enum Reading<T> {
    /// This is it.
    Value(T),
    /// The interface is down.
    NotOperational,
    /// It does not measure it.
    Unsupported,
}

impl<T> Default for Reading<T> {
    /// Nothing is measured unless the driver says so.
    fn default() -> (r: Self)
        ensures
            r == Reading::<T>::Unsupported,
    {
        Reading::Unsupported
    }
}

impl<T> Reading<T> {
    /// Whether the device has the attribute.
    pub fn is_supported(&self) -> (r: bool)
        ensures
            r == !(*self is Unsupported),
    {
        !matches!(self, Reading::Unsupported)
    }
}

/// What an interface can measure; by default nothing.
pub trait EthernetDriver {
    /// How fast the link is.
    fn phy_rate(&self) -> (r: Reading<PHYRateEnum>)
        default_ensures
            r is Unsupported,
    {
        Reading::Unsupported
    }

    /// Whether it sends and receives at once.
    fn full_duplex(&self) -> (r: Reading<bool>)
        default_ensures
            r is Unsupported,
    {
        Reading::Unsupported
    }

    /// Packets received.
    fn packet_rx_count(&self) -> (r: u64)
        default_ensures
            r == 0,
    {
        0
    }

    /// Packets sent.
    fn packet_tx_count(&self) -> (r: u64)
        default_ensures
            r == 0,
    {
        0
    }

    /// Packets that could not be sent.
    fn tx_err_count(&self) -> (r: u64)
        default_ensures
            r == 0,
    {
        0
    }

    /// Collisions.
    fn collision_count(&self) -> (r: u64)
        default_ensures
            r == 0,
    {
        0
    }

    /// Packets that there was no memory for.
    fn overrun_count(&self) -> (r: u64)
        default_ensures
            r == 0,
    {
        0
    }

    /// Whether there is a carrier.
    fn carrier_detect(&self) -> (r: Reading<bool>)
        default_ensures
            r is Unsupported,
    {
        Reading::Unsupported
    }

    /// Minutes since the interface was reset.
    fn time_since_reset(&self) -> (r: Option<u64>)
        default_ensures
            r is None,
    {
        None
    }

    /// Sets the counters to zero.
    fn reset_counts(&self) {
    }
}

/// An interface that measures nothing.
#[derive(Debug, Clone, Copy, PartialEq, Eq, Structural)]
pub struct Unknown;

impl Default for Unknown {
    fn default() -> (d: Self)
        ensures
            d == Unknown,
    {
        Unknown
    }
}

impl EthernetDriver for Unknown {

}

/// The cluster's definition: the counters come with their features, the rest is the product's
/// choice.
pub open spec fn defined() -> DefinitionModel {
    DefinitionModel {
        id: ID,
        revision: REVISION,
        features: 0x03,
        attributes: seq![
            conformance::reads(PHY_RATE, Conformance::Optional),
            conformance::reads(FULL_DUPLEX, Conformance::Optional),
            conformance::reads(PACKET_RX_COUNT, Conformance::With(PACKET_COUNTS)),
            conformance::reads(PACKET_TX_COUNT, Conformance::With(PACKET_COUNTS)),
            conformance::reads(TX_ERR_COUNT, Conformance::With(ERROR_COUNTS)),
            conformance::reads(COLLISION_COUNT, Conformance::With(ERROR_COUNTS)),
            conformance::reads(OVERRUN_COUNT, Conformance::With(ERROR_COUNTS)),
            conformance::reads(CARRIER_DETECT, Conformance::Optional),
            conformance::reads(TIME_SINCE_RESET, Conformance::Optional),
        ],
        commands: seq![conformance::invokes(RESET_COUNTS, Privilege::Manage, None, Conformance::With(0x03))],
        generated: Seq::empty(),
        events: Seq::empty(),
    }
}

/// The cluster's definition.
pub fn definition() -> (d: Definition)
    ensures
        d@ == defined(),
{
    let d: Definition = Definition {
        id: ID,
        revision: REVISION,
        features: 0x03,
        attributes: vec![
            conformance::readable(PHY_RATE, Conformance::Optional),
            conformance::readable(FULL_DUPLEX, Conformance::Optional),
            conformance::readable(PACKET_RX_COUNT, Conformance::With(PACKET_COUNTS)),
            conformance::readable(PACKET_TX_COUNT, Conformance::With(PACKET_COUNTS)),
            conformance::readable(TX_ERR_COUNT, Conformance::With(ERROR_COUNTS)),
            conformance::readable(COLLISION_COUNT, Conformance::With(ERROR_COUNTS)),
            conformance::readable(OVERRUN_COUNT, Conformance::With(ERROR_COUNTS)),
            conformance::readable(CARRIER_DETECT, Conformance::Optional),
            conformance::readable(TIME_SINCE_RESET, Conformance::Optional),
        ],
        commands: vec![conformance::invocable(RESET_COUNTS, Privilege::Manage, None, Conformance::With(0x03))],
        generated: Vec::new(),
        events: Vec::new(),
    };
    proof {
        assert(d@.attributes =~= defined().attributes);
        assert(d@.commands =~= defined().commands);
    }
    d
}

/// The description for features and for what the product chooses.
pub fn conforming(features: u32, optional: &Optional) -> (r: Result<Conforming, ErrorCode>)
    ensures
        conformance::outcome(r) == conformance::conform(defined(), features, optional@),
{
    Conforming::new(&definition(), features, optional)
}

/// Everything that a product can choose.
pub fn all_optional() -> (o: Optional)
    ensures
        o@ == (OptionalModel {
            attributes: seq![PHY_RATE, FULL_DUPLEX, CARRIER_DETECT, TIME_SINCE_RESET],
            commands: Seq::empty(),
            events: Seq::empty(),
        }),
{
    let o: Optional = Optional {
        attributes: vec![PHY_RATE, FULL_DUPLEX, CARRIER_DETECT, TIME_SINCE_RESET],
        commands: Vec::new(),
        events: Vec::new(),
    };
    proof {
        assert(o@.attributes =~= seq![PHY_RATE, FULL_DUPLEX, CARRIER_DETECT, TIME_SINCE_RESET]);
    }
    o
}

/// A speed, given what the driver says.
pub open spec fn rate_answer(tag: Tag, r: Reading<PHYRateEnum>) -> ReadAnswer {
    match r {
        Reading::Value(v) => Ok(tlv::unsigned_bytes(tag, v.number())),
        Reading::NotOperational => Ok(tlv::null_bytes(tag)),
        Reading::Unsupported => Err(Status::UnsupportedAttribute),
    }
}

/// A truth value, given what the driver says.
pub open spec fn truth_answer(tag: Tag, r: Reading<bool>) -> ReadAnswer {
    match r {
        Reading::Value(v) => Ok(tlv::bool_bytes(tag, v)),
        Reading::NotOperational => Ok(tlv::null_bytes(tag)),
        Reading::Unsupported => Err(Status::UnsupportedAttribute),
    }
}

/// A counter, given whether it is there and what the driver says.
pub open spec fn counter_answer(tag: Tag, claimed: bool, v: u64) -> ReadAnswer {
    if claimed {
        Ok(tlv::unsigned_bytes(tag, v))
    } else {
        Err(Status::UnsupportedAttribute)
    }
}

/// Minutes, given what the driver says.
pub open spec fn minutes_answer(tag: Tag, v: Option<u64>) -> ReadAnswer {
    match v {
        Some(v) => Ok(tlv::unsigned_bytes(tag, v)),
        None => Err(Status::UnsupportedAttribute),
    }
}

/// A speed, given what the driver says.
pub fn encode_rate(tag: Tag, r: Reading<PHYRateEnum>) -> (a: Result<Vec<u8>, Status>)
    ensures
        im::read_answer(a) == rate_answer(tag, r),
{
    let mut out: Vec<u8> = Vec::new();
    match r {
        Reading::Value(v) => tlv::put_unsigned(&mut out, tag, v.as_number()),
        Reading::NotOperational => tlv::put_null(&mut out, tag),
        Reading::Unsupported => return Err(Status::UnsupportedAttribute),
    }
    proof {
        assert(im::read_answer(Ok(out)) == rate_answer(tag, r)) by {
            match r {
                Reading::Value(v) => {
                    assert(out@ =~= tlv::unsigned_bytes(tag, v.number()));
                },
                _ => {
                    assert(out@ =~= tlv::null_bytes(tag));
                },
            }
        }
    }
    Ok(out)
}

/// A truth value, given what the driver says.
pub fn encode_truth(tag: Tag, r: Reading<bool>) -> (a: Result<Vec<u8>, Status>)
    ensures
        im::read_answer(a) == truth_answer(tag, r),
{
    let mut out: Vec<u8> = Vec::new();
    match r {
        Reading::Value(v) => tlv::put_bool(&mut out, tag, v),
        Reading::NotOperational => tlv::put_null(&mut out, tag),
        Reading::Unsupported => return Err(Status::UnsupportedAttribute),
    }
    proof {
        assert(im::read_answer(Ok(out)) == truth_answer(tag, r)) by {
            match r {
                Reading::Value(v) => {
                    assert(out@ =~= tlv::bool_bytes(tag, v));
                },
                _ => {
                    assert(out@ =~= tlv::null_bytes(tag));
                },
            }
        }
    }
    Ok(out)
}

/// A counter, given whether it is there and what the driver says.
pub fn encode_counter(tag: Tag, claimed: bool, v: u64) -> (a: Result<Vec<u8>, Status>)
    ensures
        im::read_answer(a) == counter_answer(tag, claimed, v),
{
    if !claimed {
        return Err(Status::UnsupportedAttribute);
    }
    let mut out: Vec<u8> = Vec::new();
    tlv::put_unsigned(&mut out, tag, v);
    proof {
        assert(out@ =~= tlv::unsigned_bytes(tag, v));
    }
    Ok(out)
}

/// Minutes, given what the driver says.
pub fn encode_minutes(tag: Tag, v: Option<u64>) -> (a: Result<Vec<u8>, Status>)
    ensures
        im::read_answer(a) == minutes_answer(tag, v),
{
    match v {
        None => Err(Status::UnsupportedAttribute),
        Some(v) => encode_counter(tag, true, v),
    }
}

/// Ethernet Network Diagnostics over an interface.
pub struct EthernetNetworkDiagnostics<'a, D: EthernetDriver> {
    /// The interface, with how often its counters were reset.
    pub driver: Recorded<'a, D>,
    /// The features.
    pub features: u32,
}

impl<'a, D: EthernetDriver> EthernetNetworkDiagnostics<'a, D> {
    /// A cluster over an interface.
    pub fn new(driver: &'a D, features: u32) -> (c: Self)
        ensures
            c.driver.product() == driver,
            c.driver.resets() == 0,
            c.features == features,
    {
        EthernetNetworkDiagnostics { driver: Recorded::new(driver), features }
    }

    /// Whether packets are counted.
    pub open spec fn packets(&self) -> bool {
        self.features & PACKET_COUNTS != 0
    }

    /// Whether errors are counted.
    pub open spec fn errors(&self) -> bool {
        self.features & ERROR_COUNTS != 0
    }

    fn counts_packets(&self) -> (r: bool)
        ensures
            r == self.packets(),
    {
        self.features & PACKET_COUNTS != 0
    }

    fn counts_errors(&self) -> (r: bool)
        ensures
            r == self.errors(),
    {
        self.features & ERROR_COUNTS != 0
    }
}

impl<'a, D: EthernetDriver> Cluster for EthernetNetworkDiagnostics<'a, D> {
    const ID: ClusterId = ID;
}

impl<'a, D: EthernetDriver> ClusterHandler for EthernetNetworkDiagnostics<'a, D> {
    open spec fn answers(&self, resolved: Resolved, ctx: InteractionContext, tag: Tag, a: ReadAnswer) -> bool {
        let id = resolved.attribute;
        if id == PHY_RATE {
            exists|v: Reading<PHYRateEnum>| #[trigger] call_ensures(D::phy_rate, (self.driver.product(),), v) && a == rate_answer(tag, v)
        } else if id == FULL_DUPLEX {
            exists|v: Reading<bool>| #[trigger] call_ensures(D::full_duplex, (self.driver.product(),), v) && a == truth_answer(tag, v)
        } else if id == CARRIER_DETECT {
            exists|v: Reading<bool>| #[trigger] call_ensures(D::carrier_detect, (self.driver.product(),), v) && a == truth_answer(tag, v)
        } else if id == PACKET_RX_COUNT {
            exists|v: u64| #[trigger] call_ensures(D::packet_rx_count, (self.driver.product(),), v) && a == counter_answer(tag, self.packets(), v)
        } else if id == PACKET_TX_COUNT {
            exists|v: u64| #[trigger] call_ensures(D::packet_tx_count, (self.driver.product(),), v) && a == counter_answer(tag, self.packets(), v)
        } else if id == TX_ERR_COUNT {
            exists|v: u64| #[trigger] call_ensures(D::tx_err_count, (self.driver.product(),), v) && a == counter_answer(tag, self.errors(), v)
        } else if id == COLLISION_COUNT {
            exists|v: u64| #[trigger] call_ensures(D::collision_count, (self.driver.product(),), v) && a == counter_answer(tag, self.errors(), v)
        } else if id == OVERRUN_COUNT {
            exists|v: u64| #[trigger] call_ensures(D::overrun_count, (self.driver.product(),), v) && a == counter_answer(tag, self.errors(), v)
        } else if id == TIME_SINCE_RESET {
            exists|v: Option<u64>| #[trigger] call_ensures(D::time_since_reset, (self.driver.product(),), v) && a == minutes_answer(tag, v)
        } else {
            a == Err::<Seq<u8>, Status>(Status::UnsupportedAttribute)
        }
    }

    open spec fn writes(
        before: &Self,
        after: &Self,
        resolved: Resolved,
        data: Seq<u8>,
        op: WriteOp,
        ctx: InteractionContext,
        r: Result<(), Status>,
    ) -> bool {
        *after == *before && r == Err::<(), Status>(Status::UnsupportedWrite)
    }

    open spec fn invokes(
        before: &Self,
        after: &Self,
        resolved: ResolvedCommand,
        fields: Option<Seq<u8>>,
        ctx: InteractionContext,
        tag: Tag,
        a: InvokeAnswer,
    ) -> bool {
        if resolved.command == RESET_COUNTS && (before.packets() || before.errors()) {
            &&& a == im::done()
            &&& call_ensures(D::reset_counts, (before.driver.product(),), ())
            &&& after.driver.reset(&before.driver)
            &&& after.features == before.features
        } else {
            &&& a == im::refused(Status::UnsupportedCommand)
            &&& *after == *before
        }
    }

    open spec fn outlives(before: &Self, after: &Self, event: Lifecycle) -> bool {
        *after == *before
    }

    open spec fn unfit(&self, resolved: ResolvedCommand) -> Status {
        Status::Failure
    }

    fn answer(&self, resolved: &Resolved, ctx: &InteractionContext, tag: Tag) -> (a: Result<Vec<u8>, Status>) {
        match resolved.attribute {
            PHY_RATE => {
                let r: Reading<PHYRateEnum> = self.driver.phy_rate();
                encode_rate(tag, r)
            },
            FULL_DUPLEX => {
                let r: Reading<bool> = self.driver.full_duplex();
                encode_truth(tag, r)
            },
            CARRIER_DETECT => {
                let r: Reading<bool> = self.driver.carrier_detect();
                encode_truth(tag, r)
            },
            PACKET_RX_COUNT => {
                let v: u64 = self.driver.packet_rx_count();
                encode_counter(tag, self.counts_packets(), v)
            },
            PACKET_TX_COUNT => {
                let v: u64 = self.driver.packet_tx_count();
                encode_counter(tag, self.counts_packets(), v)
            },
            TX_ERR_COUNT => {
                let v: u64 = self.driver.tx_err_count();
                encode_counter(tag, self.counts_errors(), v)
            },
            COLLISION_COUNT => {
                let v: u64 = self.driver.collision_count();
                encode_counter(tag, self.counts_errors(), v)
            },
            OVERRUN_COUNT => {
                let v: u64 = self.driver.overrun_count();
                encode_counter(tag, self.counts_errors(), v)
            },
            TIME_SINCE_RESET => {
                let v: Option<u64> = self.driver.time_since_reset();
                encode_minutes(tag, v)
            },
            _ => Err(Status::UnsupportedAttribute),
        }
    }

    fn write(&mut self, resolved: &Resolved, data: &[u8], op: WriteOp, ctx: &InteractionContext) -> (r: Result<(), Status>) {
        Err(Status::UnsupportedWrite)
    }

    fn perform(
        &mut self,
        resolved: &ResolvedCommand,
        fields: Option<&[u8]>,
        ctx: &InteractionContext,
        tag: Tag,
    ) -> (a: Result<Reply, StatusIb>) {
        match resolved.command {
            RESET_COUNTS => {
                if !self.counts_packets() && !self.counts_errors() {
                    return im::refuse(Status::UnsupportedCommand);
                }
                self.driver.reset_counts();
                im::no_response()
            },
            _ => im::refuse(Status::UnsupportedCommand),
        }
    }

    fn on_lifecycle(&mut self, event: Lifecycle) {
    }

    fn unfit_status(&self, resolved: &ResolvedCommand) -> (s: Status) {
        Status::Failure
    }
}

/// What is null is answered, and what is not measured is not.
pub proof fn law_null_and_unsupported_differ(tag: Tag)
    ensures
        truth_answer(tag, Reading::NotOperational) is Ok,
        truth_answer(tag, Reading::Unsupported) is Err,
        rate_answer(tag, Reading::NotOperational) is Ok,
        rate_answer(tag, Reading::Unsupported) is Err,
{
}

/// A counter is described exactly where it is answered: with its feature.
pub proof fn law_a_counter_is_described_where_it_is_answered(features: u32, o: OptionalModel, i: int, tag: Tag, v: u64)
    requires
        2 <= i <= 6,
        conformance::conform(defined(), features, o) is Ok,
    ensures
        ({
            let claimed = features & (if i <= 3 { PACKET_COUNTS } else { ERROR_COUNTS }) != 0;
            let x = defined().attributes[i].0;
            &&& conformance::conform(defined(), features, o).unwrap().attributes.contains(x) == claimed
            &&& (counter_answer(tag, claimed, v) is Ok) == claimed
        }),
{
    let d = defined();
    let x = d.attributes[i].0;
    conformance::law_chosen_is_present(d.attributes, d.attributes.len() as int, features, o.attributes, x);
    assert(d.attributes[i].0 == x);
    assert forall|k: int| 0 <= k < d.attributes.len() && (#[trigger] d.attributes[k]).0 == x implies k == i by {
        assert(d.attributes[k].0.id == k);
        assert(d.attributes[i].0.id == i);
    }
}

/// Whether an answer shows what the driver says of a value that a link without one has not, and that it may not support at all.
pub open spec fn shows_reading<T>(tag: Tag, r: Reading<T>, shown: spec_fn(T) -> Seq<u8>, a: ReadAnswer) -> bool {
    match r {
        Reading::Value(v) => a == Ok::<Seq<u8>, Status>(shown(v)),
        Reading::NotOperational => a == Ok::<Seq<u8>, Status>(tlv::null_bytes(tag)),
        Reading::Unsupported => a == Err::<Seq<u8>, Status>(Status::UnsupportedAttribute),
    }
}

/// What a read shows is what the driver says: how the link is, and each counter where it is counted.
pub proof fn law_a_link_is_read_as_it_is<'a, D: EthernetDriver>(
    c: EthernetNetworkDiagnostics<'a, D>,
    resolved: Resolved,
    ctx: InteractionContext,
    tag: Tag,
    a: ReadAnswer,
)
    requires
        c.answers(resolved, ctx, tag, a),
    ensures
        resolved.attribute == 0x0000 ==> exists|v: Reading<PHYRateEnum>| #[trigger]
            call_ensures(D::phy_rate, (c.driver.product(),), v) && shows_reading(
                tag,
                v,
                |r: PHYRateEnum|
                    tlv::unsigned_bytes(
                        tag,
                        match r {
                            PHYRateEnum::Rate10M => 0,
                            PHYRateEnum::Rate100M => 1,
                            PHYRateEnum::Rate1G => 2,
                            PHYRateEnum::Rate25G => 3,
                            PHYRateEnum::Rate5G => 4,
                            PHYRateEnum::Rate10G => 5,
                            PHYRateEnum::Rate40G => 6,
                            PHYRateEnum::Rate100G => 7,
                            PHYRateEnum::Rate200G => 8,
                            PHYRateEnum::Rate400G => 9,
                        },
                    ),
                a,
            ),
        resolved.attribute == 0x0001 ==> exists|v: Reading<bool>| #[trigger]
            call_ensures(D::full_duplex, (c.driver.product(),), v) && shows_reading(tag, v, |x: bool| tlv::bool_bytes(tag, x), a),
        resolved.attribute == 0x0007 ==> exists|v: Reading<bool>| #[trigger]
            call_ensures(D::carrier_detect, (c.driver.product(),), v) && shows_reading(tag, v, |x: bool| tlv::bool_bytes(tag, x), a),
        resolved.attribute == 0x0008 ==> exists|v: Option<u64>| #[trigger]
            call_ensures(D::time_since_reset, (c.driver.product(),), v) && match v {
                Some(v) => a is Ok && tlv::shows_number(a->Ok_0, 0, tag, v),
                None => a == Err::<Seq<u8>, Status>(Status::UnsupportedAttribute),
            },
        ({
            let counts = |v: u64, there: bool|
                if there {
                    a is Ok && tlv::shows_number(a->Ok_0, 0, tag, v)
                } else {
                    a == Err::<Seq<u8>, Status>(Status::UnsupportedAttribute)
                };
            &&& resolved.attribute == 0x0002 ==> exists|v: u64| #[trigger]
                call_ensures(D::packet_rx_count, (c.driver.product(),), v) && counts(v, c.features & 1 != 0)
            &&& resolved.attribute == 0x0003 ==> exists|v: u64| #[trigger]
                call_ensures(D::packet_tx_count, (c.driver.product(),), v) && counts(v, c.features & 1 != 0)
            &&& resolved.attribute == 0x0004 ==> exists|v: u64| #[trigger]
                call_ensures(D::tx_err_count, (c.driver.product(),), v) && counts(v, c.features & 2 != 0)
            &&& resolved.attribute == 0x0005 ==> exists|v: u64| #[trigger]
                call_ensures(D::collision_count, (c.driver.product(),), v) && counts(v, c.features & 2 != 0)
            &&& resolved.attribute == 0x0006 ==> exists|v: u64| #[trigger]
                call_ensures(D::overrun_count, (c.driver.product(),), v) && counts(v, c.features & 2 != 0)
        }),
{
    assert forall|v: u64| tlv::shows_number(#[trigger] tlv::unsigned_bytes(tag, v), 0, tag, v) by {
        tlv::lemma_shows_number(tag, v);
    }
}

/// `ResetCounts` has the driver reset once where something is counted, and is not there where nothing is.
pub proof fn law_counts_are_reset_once<'a, D: EthernetDriver>(
    before: EthernetNetworkDiagnostics<'a, D>,
    after: EthernetNetworkDiagnostics<'a, D>,
    resolved: ResolvedCommand,
    data: Option<Seq<u8>>,
    ctx: InteractionContext,
    tag: Tag,
    a: InvokeAnswer,
)
    requires
        EthernetNetworkDiagnostics::invokes(&before, &after, resolved, data, ctx, tag, a),
    ensures
        if resolved.command == 0x00 && (before.features & 1 != 0 || before.features & 2 != 0) {
            a == im::done() && after.driver.resets() == before.driver.resets() + 1
        } else {
            a == im::refused(Status::UnsupportedCommand) && after.driver.resets() == before.driver.resets()
        },
{
}

/// How the cluster describes itself follows from the features and from what the product chooses: each attribute, command and event
/// is there exactly where they say so, with who may read, write or invoke it, and nothing else is.
pub proof fn law_the_cluster_describes_itself(features: u32, o: conformance::OptionalModel, c: crate::dm::ClusterModel)
    requires
        conformance::conform(defined(), features, o) == Ok::<crate::dm::ClusterModel, ErrorCode>(c),
    ensures
        c.id == 0x0037,
        c.revision == 1,
        c.feature_map == features,
        features & !0x03u32 == 0,
        c.attributes.contains(conformance::shown_attribute(0x0000, None)) == (o.attributes.contains(0x0000)),
        c.attributes.contains(conformance::shown_attribute(0x0001, None)) == (o.attributes.contains(0x0001)),
        c.attributes.contains(conformance::shown_attribute(0x0002, None)) == (features & 0x01 != 0),
        c.attributes.contains(conformance::shown_attribute(0x0003, None)) == (features & 0x01 != 0),
        c.attributes.contains(conformance::shown_attribute(0x0004, None)) == (features & 0x02 != 0),
        c.attributes.contains(conformance::shown_attribute(0x0005, None)) == (features & 0x02 != 0),
        c.attributes.contains(conformance::shown_attribute(0x0006, None)) == (features & 0x02 != 0),
        c.attributes.contains(conformance::shown_attribute(0x0007, None)) == (o.attributes.contains(0x0007)),
        c.attributes.contains(conformance::shown_attribute(0x0008, None)) == (o.attributes.contains(0x0008)),
        c.accepted_commands.contains(conformance::shown_command(0x00, Privilege::Manage, false, false, None)) == (features & 0x03 != 0),
        c.attributes.len() <= 9,
        c.accepted_commands.len() <= 1,
        c.events.len() <= 0,
{
    let d = defined();
    assert(conformance::told_apart(d.attributes));
    assert(conformance::told_apart(d.commands));
    assert(conformance::told_apart(d.events));
    conformance::lemma_described(d.attributes, features, o.attributes, conformance::shown_attribute(0x0000, None), 0);
    conformance::lemma_described(d.attributes, features, o.attributes, conformance::shown_attribute(0x0001, None), 1);
    conformance::lemma_described(d.attributes, features, o.attributes, conformance::shown_attribute(0x0002, None), 2);
    conformance::lemma_described(d.attributes, features, o.attributes, conformance::shown_attribute(0x0003, None), 3);
    conformance::lemma_described(d.attributes, features, o.attributes, conformance::shown_attribute(0x0004, None), 4);
    conformance::lemma_described(d.attributes, features, o.attributes, conformance::shown_attribute(0x0005, None), 5);
    conformance::lemma_described(d.attributes, features, o.attributes, conformance::shown_attribute(0x0006, None), 6);
    conformance::lemma_described(d.attributes, features, o.attributes, conformance::shown_attribute(0x0007, None), 7);
    conformance::lemma_described(d.attributes, features, o.attributes, conformance::shown_attribute(0x0008, None), 8);
    conformance::lemma_described(d.commands, features, o.commands, conformance::shown_command(0x00, Privilege::Manage, false, false, None), 0);
    conformance::lemma_at_most(d.attributes, features, o.attributes, d.attributes.len() as int);
    conformance::lemma_at_most(d.commands, features, o.commands, d.commands.len() as int);
    conformance::lemma_at_most(d.events, features, o.events, d.events.len() as int);
}

} // verus!
