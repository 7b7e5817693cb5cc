//! Identify, cluster `0x0003`: how an endpoint shows which one it is.
//!
//! The time counts down in seconds by the clock, not by the number of polls. The device hears of the
//! start and of the end, and not of the seconds between them.

use vstd::prelude::*;

use crate::clusters::dispatch::Cluster;
use crate::clusters::groups::Identifying;
use crate::conformance;
use crate::conformance::{Conformance, Conforming, Definition, DefinitionModel, Optional, OptionalModel};
use crate::dm::Privilege;
use crate::error::ErrorCode;
use crate::fields;
use crate::fields::{Field, Fields, Kind, Need};
use crate::im;
use crate::im::{
    AttributeId, ClusterHandler, ClusterId, CommandId, InteractionContext, InvokeAnswer, Lifecycle, ReadAnswer, Reply, Resolved,
    ResolvedCommand, Status, StatusIb, WriteOp,
};
use crate::platform;
use crate::platform::{Duration, Instant};
use crate::tlv;
use crate::tlv::{Numbered, Tag, Value};

verus! {

/// The cluster.
pub const ID: ClusterId = 0x0003;

/// Its revision.
pub const REVISION: u16 = 5;

/// `IdentifyTime`.
pub const IDENTIFY_TIME: AttributeId = 0x0000;

/// `IdentifyType`.
pub const IDENTIFY_TYPE: AttributeId = 0x0001;

/// `Identify`.
pub const IDENTIFY: CommandId = 0x00;

/// `TriggerEffect`.
pub const TRIGGER_EFFECT: CommandId = 0x40;

/// The unit of the countdown, in seconds.
pub const TICK_SECONDS: u32 = 1;

/// How many seconds one poll makes up for: an hour's.
pub const MAX_CATCH_UP: u32 = 3600;

/// How an endpoint shows which one it is.
#[derive(Debug, Clone, Copy, PartialEq, Eq, Structural)]
pub enum IdentifyTypeEnum {
    /// In no way.
    NoMethod,
    /// By its light.
    LightOutput,
    /// By an indicator.
    VisibleIndicator,
    /// By a sound.
    AudibleBeep,
    /// By its display.
    Display,
    /// By moving.
    Actuator,
}

impl Numbered for IdentifyTypeEnum {
    open spec fn number(self) -> u64 {
        match self {
            IdentifyTypeEnum::NoMethod => 0,
            IdentifyTypeEnum::LightOutput => 1,
            IdentifyTypeEnum::VisibleIndicator => 2,
            IdentifyTypeEnum::AudibleBeep => 3,
            IdentifyTypeEnum::Display => 4,
            IdentifyTypeEnum::Actuator => 5,
        }
    }

    fn as_number(self) -> (v: u64) {
        match self {
            IdentifyTypeEnum::NoMethod => 0,
            IdentifyTypeEnum::LightOutput => 1,
            IdentifyTypeEnum::VisibleIndicator => 2,
            IdentifyTypeEnum::AudibleBeep => 3,
            IdentifyTypeEnum::Display => 4,
            IdentifyTypeEnum::Actuator => 5,
        }
    }
}

/// An effect.
#[derive(Debug, Clone, Copy, PartialEq, Eq, Structural)]
pub enum EffectIdentifierEnum {
    /// Once.
    Blink,
    /// Slowly.
    Breathe,
    /// As if to say yes.
    Okay,
    /// As if to say that something changed.
    ChannelChange,
    /// The one that is on goes to its end.
    FinishEffect,
    /// The one that is on stops.
    StopEffect,
}

/// How an effect looks.
#[derive(Debug, Clone, Copy, PartialEq, Eq, Structural)]
pub enum EffectVariantEnum {
    /// As usual.
    Default,
}

/// The effect of a number.
pub open spec fn effect_of(v: u8) -> Option<EffectIdentifierEnum> {
    if v == 0 {
        Some(EffectIdentifierEnum::Blink)
    } else if v == 1 {
        Some(EffectIdentifierEnum::Breathe)
    } else if v == 2 {
        Some(EffectIdentifierEnum::Okay)
    } else if v == 11 {
        Some(EffectIdentifierEnum::ChannelChange)
    } else if v == 254 {
        Some(EffectIdentifierEnum::FinishEffect)
    } else if v == 255 {
        Some(EffectIdentifierEnum::StopEffect)
    } else {
        None
    }
}

fn effect_from(v: u8) -> (e: Option<EffectIdentifierEnum>)
    ensures
        e == effect_of(v),
{
    match v {
        0 => Some(EffectIdentifierEnum::Blink),
        1 => Some(EffectIdentifierEnum::Breathe),
        2 => Some(EffectIdentifierEnum::Okay),
        11 => Some(EffectIdentifierEnum::ChannelChange),
        254 => Some(EffectIdentifierEnum::FinishEffect),
        255 => Some(EffectIdentifierEnum::StopEffect),
        _ => None,
    }
}

/// What a device was told to show.
#[derive(Debug, Clone, Copy, PartialEq, Eq, Structural)]
pub enum Shown {
    /// That it starts or stops to show which one it is.
    Identifying(bool),
    /// An effect.
    Effect(EffectIdentifierEnum, EffectVariantEnum),
}

/// What a device does to show which one it is.
pub trait IdentifyHooks {
    /// What it was told to show, in order; a product that is itself verified says what this
    /// is.
    closed spec fn shown(&self) -> Seq<Shown> {
        arbitrary()
    }

    /// It starts or stops to.
    fn identifying(&mut self, on: bool)
        ensures
            final(self).shown() == old(self).shown().push(Shown::Identifying(on)),
    ;

    /// It shows an effect.
    fn trigger_effect(&mut self, effect: EffectIdentifierEnum, variant: EffectVariantEnum)
        ensures
            final(self).shown() == old(self).shown().push(Shown::Effect(effect, variant)),
    ;
}

/// What was shown, once a change may have to be.
pub open spec fn shows(shown: Seq<Shown>, transition: Option<bool>) -> Seq<Shown> {
    match transition {
        Some(on) => shown.push(Shown::Identifying(on)),
        None => shown,
    }
}

/// What was shown, once a command was carried out.
pub open spec fn obeyed(shown: Seq<Shown>, st: State, command: CommandId, data: Option<Seq<u8>>, now: Instant) -> Seq<Shown> {
    match data {
        None => shown,
        Some(b) => if command == IDENTIFY {
            match identify_decoded(b) {
                Ok(seconds) => shows(shown, timed(st, seconds, now).1),
                Err(_) => shown,
            }
        } else if command == TRIGGER_EFFECT {
            match effect_decoded(b) {
                Ok(effect) => shown.push(Shown::Effect(effect, EffectVariantEnum::Default)),
                Err(_) => shown,
            }
        } else {
            shown
        },
    }
}

/// The cluster's definition.
pub open spec fn defined() -> DefinitionModel {
    DefinitionModel {
        id: ID,
        revision: REVISION,
        features: 0,
        attributes: seq![
            conformance::writes(IDENTIFY_TIME, Privilege::Operate, Conformance::Mandatory),
            conformance::reads(IDENTIFY_TYPE, Conformance::Mandatory),
        ],
        commands: seq![
            conformance::invokes(IDENTIFY, Privilege::Manage, None, Conformance::Mandatory),
            conformance::invokes(TRIGGER_EFFECT, Privilege::Manage, None, Conformance::Optional),
        ],
        generated: Seq::empty(),
        events: Seq::empty(),
    }
}

/// The cluster's definition.
pub fn definition() -> (d: Definition)
    ensures
        d@ == defined(),
{
    let d: Definition = Definition {
        id: ID,
        revision: REVISION,
        features: 0,
        attributes: vec![
            conformance::writable(IDENTIFY_TIME, Privilege::Operate, Conformance::Mandatory),
            conformance::readable(IDENTIFY_TYPE, Conformance::Mandatory),
        ],
        commands: vec![
            conformance::invocable(IDENTIFY, Privilege::Manage, None, Conformance::Mandatory),
            conformance::invocable(TRIGGER_EFFECT, Privilege::Manage, None, Conformance::Optional),
        ],
        generated: Vec::new(),
        events: Vec::new(),
    };
    proof {
        assert(d@.attributes =~= defined().attributes);
        assert(d@.commands =~= defined().commands);
    }
    d
}

/// `TriggerEffect`, for a product that has it.
pub fn with_trigger_effect() -> (o: Optional)
    ensures
        o@ == (OptionalModel { attributes: Seq::empty(), commands: seq![TRIGGER_EFFECT], events: Seq::empty() }),
{
    let o: Optional = Optional { attributes: Vec::new(), commands: vec![TRIGGER_EFFECT], events: Vec::new() };
    proof {
        assert(o@.commands =~= seq![TRIGGER_EFFECT]);
    }
    o
}

/// A countdown.
#[derive(Debug, Clone, Copy, PartialEq, Eq, Structural)]
pub struct State {
    /// The seconds that are left.
    pub remaining: u16,
    /// When the next one is over, where one is left.
    pub next_tick: Option<Instant>,
}

/// The moment a second later.
pub open spec fn second_after(t: Instant) -> Instant {
    platform::later(t, TICK_SECONDS * 1_000_000)
}

/// What setting the time comes to: the countdown, and whether that starts it or stops it.
pub open spec fn timed(st: State, seconds: u16, now: Instant) -> (State, Option<bool>) {
    (
        State { remaining: seconds, next_tick: if seconds > 0 { Some(second_after(now)) } else { None } },
        if (st.remaining > 0) != (seconds > 0) { Some(seconds > 0) } else { None },
    )
}

/// The seconds that are left after those that are over by a moment, at most so many, and when the
/// next is over.
pub open spec fn counted(remaining: u16, due: Instant, now: Instant, most: nat) -> (u16, Instant)
    decreases most,
{
    if most == 0 || now.micros < due.micros || remaining == 0 {
        (remaining, due)
    } else {
        counted((remaining - 1) as u16, second_after(due), now, (most - 1) as nat)
    }
}

/// What a poll comes to: the countdown, and whether that ends it.
pub open spec fn polled(st: State, now: Instant) -> (State, bool) {
    match st.next_tick {
        None => (st, false),
        Some(due) => {
            let (remaining, next) = counted(st.remaining, due, now, MAX_CATCH_UP as nat);
            if remaining == 0 {
                (State { remaining, next_tick: None }, true)
            } else {
                (State { remaining, next_tick: Some(next) }, false)
            }
        },
    }
}

impl State {
    /// Whether there is a next second exactly where one is left.
    pub open spec fn valid(self) -> bool {
        (self.next_tick is Some) == (self.remaining > 0)
    }

    /// Sets the time, and says whether that starts the countdown or stops it.
    pub fn set(&mut self, seconds: u16, now: Instant) -> (transition: Option<bool>)
        ensures
            (*final(self), transition) == timed(*old(self), seconds, now),
            final(self).valid(),
    {
        let was: bool = self.remaining > 0;
        let is: bool = seconds > 0;
        self.remaining = seconds;
        self.next_tick = if is {
            Some(now.saturating_add(Duration::from_secs(TICK_SECONDS)))
        } else {
            None
        };
        if was != is {
            Some(is)
        } else {
            None
        }
    }

    /// Counts down by what is over, and says whether that ends it.
    pub fn poll(&mut self, now: Instant) -> (ended: bool)
        ensures
            (*final(self), ended) == polled(*old(self), now),
            old(self).valid() ==> final(self).valid(),
    {
        let mut due: Instant = match self.next_tick {
            None => return false,
            Some(due) => due,
        };
        let ghost first = due;
        let mut ticks: u32 = 0;
        while now.micros >= due.micros && self.remaining > 0 && ticks < MAX_CATCH_UP
            invariant
                ticks <= MAX_CATCH_UP,
                counted(old(self).remaining, first, now, MAX_CATCH_UP as nat) == counted(
                    self.remaining,
                    due,
                    now,
                    (MAX_CATCH_UP - ticks) as nat,
                ),
            decreases MAX_CATCH_UP - ticks,
        {
            ticks = ticks + 1;
            due = due.saturating_add(Duration::from_secs(TICK_SECONDS));
            self.remaining = self.remaining - 1;
        }
        if self.remaining == 0 {
            self.next_tick = None;
            true
        } else {
            self.next_tick = Some(due);
            false
        }
    }
}

/// The fields of `Identify`.
pub open spec fn identify_schema() -> Seq<Field> {
    seq![Field(0, Kind::U16, Need::Required)]
}

/// The fields of `TriggerEffect`.
pub open spec fn effect_schema() -> Seq<Field> {
    seq![Field(0, Kind::U8, Need::Required), Field(1, Kind::Enum(0), Need::Required)]
}

/// The time of `Identify`, or what is wrong with it.
pub open spec fn identify_decoded(b: Seq<u8>) -> Result<u16, Status> {
    match fields::decode(b, identify_schema()) {
        Err(status) => Err(status),
        Ok(items) => match fields::num16(items, 0) {
            Some(seconds) => Ok(seconds),
            None => Err(Status::InvalidCommand),
        },
    }
}

/// The effect of `TriggerEffect`, or what is wrong with it: one that there is not breaks a
/// constraint.
pub open spec fn effect_decoded(b: Seq<u8>) -> Result<EffectIdentifierEnum, Status> {
    match fields::decode(b, effect_schema()) {
        Err(status) => Err(status),
        Ok(items) => match fields::num8(items, 0) {
            Some(effect) => match effect_of(effect) {
                Some(effect) => Ok(effect),
                None => Err(Status::ConstraintError),
            },
            None => Err(Status::InvalidCommand),
        },
    }
}

fn decode_identify(data: &[u8]) -> (r: Result<u16, Status>)
    ensures
        r == identify_decoded(data@),
{
    let schema: Vec<Field> = vec![Field(0, Kind::U16, Need::Required)];
    proof {
        assert(schema@ =~= identify_schema());
    }
    let f: Fields = match fields::read(data, &schema) {
        Err(status) => return Err(status),
        Ok(f) => f,
    };
    match f.num16(0) {
        Some(seconds) => Ok(seconds),
        None => Err(Status::InvalidCommand),
    }
}

fn decode_effect(data: &[u8]) -> (r: Result<EffectIdentifierEnum, Status>)
    ensures
        r == effect_decoded(data@),
{
    let schema: Vec<Field> = vec![Field(0, Kind::U8, Need::Required), Field(1, Kind::Enum(0), Need::Required)];
    proof {
        assert(schema@ =~= effect_schema());
    }
    let f: Fields = match fields::read(data, &schema) {
        Err(status) => return Err(status),
        Ok(f) => f,
    };
    match f.num8(0) {
        Some(effect) => match effect_from(effect) {
            Some(effect) => Ok(effect),
            None => Err(Status::ConstraintError),
        },
        None => Err(Status::InvalidCommand),
    }
}

/// The time that a write gives, or why it is refused.
pub open spec fn time_written(b: Seq<u8>) -> Result<u16, Status> {
    match tlv::element_at(b, 0) {
        None => Err(Status::InvalidAction),
        Some((e, _)) => match e.value {
            Value::Unsigned(v) => if v <= 0xFFFF { Ok(v as u16) } else { Err(Status::ConstraintError) },
            _ => Err(Status::ConstraintError),
        },
    }
}

/// What a command comes to.
pub open spec fn commanded(st: State, command: CommandId, data: Option<Seq<u8>>, now: Instant) -> (State, InvokeAnswer) {
    match data {
        None => (st, im::refused(Status::InvalidCommand)),
        Some(b) => if command == IDENTIFY {
            match identify_decoded(b) {
                Err(status) => (st, im::refused(status)),
                Ok(seconds) => (timed(st, seconds, now).0, im::done()),
            }
        } else if command == TRIGGER_EFFECT {
            match effect_decoded(b) {
                Err(status) => (st, im::refused(status)),
                Ok(_) => (st, im::done()),
            }
        } else {
            (st, im::refused(Status::UnsupportedCommand))
        },
    }
}

/// Identify on a device.
pub struct Identify<H: IdentifyHooks> {
    /// The device.
    pub hooks: H,
    /// How it shows which one it is.
    pub kind: IdentifyTypeEnum,
    /// The countdown.
    pub state: State,
}

impl<H: IdentifyHooks> Identify<H> {
    /// A cluster that does not count.
    pub fn new(hooks: H, kind: IdentifyTypeEnum) -> (c: Self)
        ensures
            c == (Identify { hooks, kind, state: State { remaining: 0, next_tick: None } }),
            c.state.valid(),
    {
        Identify { hooks, kind, state: State { remaining: 0, next_tick: None } }
    }

    /// The description for what the product chooses.
    pub fn conforming(optional: &Optional) -> (r: Result<Conforming, ErrorCode>)
        ensures
            conformance::outcome(r) == conformance::conform(defined(), 0, optional@),
    {
        Conforming::new(&definition(), 0, optional)
    }

    /// `IdentifyTime`.
    pub fn remaining(&self) -> (s: u16)
        ensures
            s == self.state.remaining,
    {
        self.state.remaining
    }

    /// Whether the endpoint shows which one it is.
    pub fn is_identifying(&self) -> (r: bool)
        ensures
            r == (self.state.remaining > 0),
    {
        self.state.remaining > 0
    }

    /// `IdentifyType`.
    pub fn kind(&self) -> (k: IdentifyTypeEnum)
        ensures
            k == self.kind,
    {
        self.kind
    }

    /// Whether it is another with a countdown, whose device was told to show what it was, and stays as
    /// it is where that is nothing more.
    pub open spec fn moved(&self, before: &Self, state: State, shown: Seq<Shown>) -> bool {
        &&& self.kind == before.kind
        &&& self.state == state
        &&& self.hooks.shown() == shown
        &&& shown.len() == before.hooks.shown().len() ==> self.hooks == before.hooks
    }

    /// Sets the time.
    pub fn set_time(&mut self, seconds: u16, now: Instant)
        ensures
            final(self).moved(
                old(self),
                timed(old(self).state, seconds, now).0,
                shows(old(self).hooks.shown(), timed(old(self).state, seconds, now).1),
            ),
            final(self).state.valid(),
    {
        let transition: Option<bool> = self.state.set(seconds, now);
        if let Some(on) = transition {
            self.hooks.identifying(on);
        }
    }

    /// When there is something to poll for.
    pub fn wake_at(&self) -> (t: Option<Instant>)
        ensures
            t == self.state.next_tick,
    {
        self.state.next_tick
    }

    /// Counts down by what is over.
    pub fn poll(&mut self, now: Instant)
        ensures
            final(self).moved(
                old(self),
                polled(old(self).state, now).0,
                shows(old(self).hooks.shown(), if polled(old(self).state, now).1 { Some(false) } else { None }),
            ),
            old(self).state.valid() ==> final(self).state.valid(),
    {
        let ended: bool = self.state.poll(now);
        if ended {
            self.hooks.identifying(false);
        }
    }
}

impl<H: IdentifyHooks> Cluster for Identify<H> {
    const ID: ClusterId = ID;
}

impl<H: IdentifyHooks> ClusterHandler for Identify<H> {
    open spec fn answers(&self, resolved: Resolved, ctx: InteractionContext, tag: Tag, a: ReadAnswer) -> bool {
        a == if resolved.attribute == IDENTIFY_TIME {
            Ok::<Seq<u8>, Status>(tlv::unsigned_bytes(tag, self.state.remaining as u64))
        } else if resolved.attribute == IDENTIFY_TYPE {
            Ok(tlv::unsigned_bytes(tag, self.kind.number()))
        } else {
            Err(Status::UnsupportedAttribute)
        }
    }

    open spec fn writes(
        before: &Self,
        after: &Self,
        resolved: Resolved,
        data: Seq<u8>,
        op: WriteOp,
        ctx: InteractionContext,
        r: Result<(), Status>,
    ) -> bool {
        if resolved.attribute != IDENTIFY_TIME {
            *after == *before && r == Err::<(), Status>(Status::UnsupportedWrite)
        } else {
            match time_written(data) {
                Err(status) => *after == *before && r == Err::<(), Status>(status),
                Ok(seconds) => r == Ok::<(), Status>(()) && after.moved(
                    before,
                    timed(before.state, seconds, ctx.now).0,
                    shows(before.hooks.shown(), timed(before.state, seconds, ctx.now).1),
                ),
            }
        }
    }

    open spec fn invokes(
        before: &Self,
        after: &Self,
        resolved: ResolvedCommand,
        fields: Option<Seq<u8>>,
        ctx: InteractionContext,
        tag: Tag,
        a: InvokeAnswer,
    ) -> bool {
        let (state, said) = commanded(before.state, resolved.command, fields, ctx.now);
        &&& after.moved(
            before,
            state,
            obeyed(before.hooks.shown(), before.state, resolved.command, fields, ctx.now),
        )
        &&& a == said
    }

    open spec fn outlives(before: &Self, after: &Self, event: Lifecycle) -> bool {
        *after == *before
    }

    open spec fn unfit(&self, resolved: ResolvedCommand) -> Status {
        Status::Failure
    }

    fn answer(&self, resolved: &Resolved, ctx: &InteractionContext, tag: Tag) -> (a: Result<Vec<u8>, Status>) {
        let v: u64 = match resolved.attribute {
            IDENTIFY_TIME => self.state.remaining as u64,
            IDENTIFY_TYPE => self.kind.as_number(),
            _ => return Err(Status::UnsupportedAttribute),
        };
        let mut out: Vec<u8> = Vec::new();
        tlv::put_unsigned(&mut out, tag, v);
        proof {
            assert(out@ =~= tlv::unsigned_bytes(tag, v));
        }
        Ok(out)
    }

    fn write(&mut self, resolved: &Resolved, data: &[u8], op: WriteOp, ctx: &InteractionContext) -> (r: Result<(), Status>) {
        if resolved.attribute != IDENTIFY_TIME {
            return Err(Status::UnsupportedWrite);
        }
        match tlv::read_element(data, 0) {
            None => Err(Status::InvalidAction),
            Some((e, _)) => match e.value {
                Value::Unsigned(v) => {
                    if v > 0xFFFF {
                        return Err(Status::ConstraintError);
                    }
                    self.set_time(v as u16, ctx.now);
                    Ok(())
                },
                _ => Err(Status::ConstraintError),
            },
        }
    }

    fn perform(
        &mut self,
        resolved: &ResolvedCommand,
        fields: Option<&[u8]>,
        ctx: &InteractionContext,
        tag: Tag,
    ) -> (a: Result<Reply, StatusIb>) {
        let data: &[u8] = match fields {
            None => return im::refuse(Status::InvalidCommand),
            Some(data) => data,
        };
        match resolved.command {
            IDENTIFY => match decode_identify(data) {
                Err(status) => im::refuse(status),
                Ok(seconds) => {
                    self.set_time(seconds, ctx.now);
                    im::no_response()
                },
            },
            TRIGGER_EFFECT => match decode_effect(data) {
                Err(status) => im::refuse(status),
                Ok(effect) => {
                    self.hooks.trigger_effect(effect, EffectVariantEnum::Default);
                    im::no_response()
                },
            },
            _ => im::refuse(Status::UnsupportedCommand),
        }
    }

    fn on_lifecycle(&mut self, event: Lifecycle) {
    }

    fn unfit_status(&self, resolved: &ResolvedCommand) -> (s: Status) {
        Status::Failure
    }
}

impl<H: IdentifyHooks> Identifying for Identify<H> {
    fn is_identifying(&self) -> (r: bool)
        ensures
            r == (self.state.remaining > 0),
    {
        self.state.remaining > 0
    }
}

/// A write and a command that set the same time leave the same countdown.
pub proof fn law_a_write_is_a_command(st: State, b: Seq<u8>, data: Seq<u8>, now: Instant)
    requires
        time_written(b) is Ok,
        identify_decoded(data) == time_written(b),
    ensures
        commanded(st, IDENTIFY, Some(data), now) == (timed(st, time_written(b)->Ok_0, now).0, im::done()),
{
}

/// The device hears of a time that is set exactly where that starts or stops the countdown.
pub proof fn law_only_transitions_are_told(st: State, seconds: u16, now: Instant)
    ensures
        timed(st, seconds, now).1 == Some(true) <==> st.remaining == 0 && seconds > 0,
        timed(st, seconds, now).1 == Some(false) <==> st.remaining > 0 && seconds == 0,
{
}

/// A poll counts the whole seconds that are over by the clock, however late it is: none before the
/// first is over, and after that one more than the whole seconds since, up to what is left and to an
/// hour.
pub proof fn law_seconds_are_counted_by_the_clock(remaining: u16, due: Instant, now: Instant, most: nat)
    requires
        due.micros + most * 1_000_000 <= u64::MAX,
    ensures
        ({
            let over: int = if now.micros < due.micros { 0 } else { (now.micros - due.micros) / 1_000_000 + 1 };
            let gone: int = if over > remaining && remaining <= most {
                remaining as int
            } else if over > most {
                most as int
            } else {
                over
            };
            let (left, next) = counted(remaining, due, now, most);
            left == remaining - gone && next.micros == due.micros + gone * 1_000_000
        }),
    decreases most,
{
    if most > 0 && now.micros >= due.micros && remaining > 0 {
        law_seconds_are_counted_by_the_clock((remaining - 1) as u16, second_after(due), now, (most - 1) as nat);
    }
}

/// Two polls, one after the other, come to what the later one alone comes to, as long as neither has
/// more to make up for than it can.
pub proof fn law_polling_often_is_polling_late(st: State, first: Instant, then: Instant)
    requires
        st.valid(),
        st.remaining <= MAX_CATCH_UP,
        first.micros <= then.micros,
        st.next_tick matches Some(due) ==> due.micros + MAX_CATCH_UP * 2_000_000 <= u64::MAX,
    ensures
        polled(polled(st, first).0, then).0 == polled(st, then).0,
{
    if let Some(due) = st.next_tick {
        let most = MAX_CATCH_UP as nat;
        law_seconds_are_counted_by_the_clock(st.remaining, due, first, most);
        law_seconds_are_counted_by_the_clock(st.remaining, due, then, most);
        let (left, next) = counted(st.remaining, due, first, most);
        if left > 0 {
            law_seconds_are_counted_by_the_clock(left, next, then, most);
        }
    }
}

/// Setting the time, by `Identify` or by a write, sets exactly that many seconds, of which the first is over a second
/// later; the device is told to start where nothing was left and something is, and to stop where it is the other way
/// round.
pub proof fn law_the_time_is_set_as_asked<H: IdentifyHooks>(
    before: Identify<H>,
    after: Identify<H>,
    resolved: ResolvedCommand,
    b: Seq<u8>,
    items: Seq<tlv::Element>,
    seconds: u16,
    ctx: InteractionContext,
    tag: Tag,
    a: InvokeAnswer,
)
    requires
        Identify::invokes(&before, &after, resolved, Some(b), ctx, tag, a),
        resolved.command == 0x00,
        fields::decode(b, seq![Field(0, Kind::U16, Need::Required)]) == Ok::<Seq<tlv::Element>, Status>(items),
        fields::num(items, 0) == Some(seconds as u64),
    ensures
        a == im::done(),
        after.state.remaining == seconds,
        after.kind == before.kind,
        seconds == 0 <==> after.state.next_tick is None,
        seconds > 0 && ctx.now.micros + 1_000_000 <= u64::MAX ==> (after.state.next_tick matches Some(t) && t.micros == ctx.now.micros
            + 1_000_000),
        after.hooks.shown() == (if before.state.remaining == 0 && seconds > 0 {
            before.hooks.shown().push(Shown::Identifying(true))
        } else if before.state.remaining > 0 && seconds == 0 {
            before.hooks.shown().push(Shown::Identifying(false))
        } else {
            before.hooks.shown()
        }),
{
    assert(identify_schema() =~= seq![Field(0, Kind::U16, Need::Required)]);
}

/// A write of the time that is one sets it, and is otherwise refused and changes nothing; what is left is what a read
/// shows, and how the device shows which one it is.
pub proof fn law_the_time_is_written_and_read<H: IdentifyHooks>(
    before: Identify<H>,
    after: Identify<H>,
    resolved: Resolved,
    b: Seq<u8>,
    op: WriteOp,
    ctx: InteractionContext,
    r: Result<(), Status>,
    tag: Tag,
    a: ReadAnswer,
)
    requires
        Identify::writes(&before, &after, resolved, b, op, ctx, r),
        after.answers(resolved, ctx, tag, a),
    ensures
        r is Err ==> after.state == before.state && after.hooks == before.hooks,
        resolved.attribute == 0x0000 ==> {
            &&& (r is Ok) == (tlv::element_at(b, 0) matches Some((e, _)) && (e.value matches Value::Unsigned(v) && v <= 0xFFFF))
            &&& r is Ok ==> tlv::element_at(b, 0)->Some_0.0.value == Value::Unsigned(after.state.remaining as u64)
            &&& a is Ok && tlv::shows_number(a->Ok_0, 0, tag, after.state.remaining as u64)
        },
        resolved.attribute == 0x0001 ==> r is Err && a is Ok && tlv::shows_number(
            a->Ok_0,
            0,
            tag,
            match after.kind {
                IdentifyTypeEnum::NoMethod => 0,
                IdentifyTypeEnum::LightOutput => 1,
                IdentifyTypeEnum::VisibleIndicator => 2,
                IdentifyTypeEnum::AudibleBeep => 3,
                IdentifyTypeEnum::Display => 4,
                IdentifyTypeEnum::Actuator => 5,
            },
        ),
{
    tlv::lemma_shows_number(tag, after.state.remaining as u64);
    tlv::lemma_shows_number(tag, after.kind.number());
}

/// `TriggerEffect` has the device show the effect of the number that it names, once, and leaves the time alone; a number
/// of no effect breaks a constraint and shows nothing.
pub proof fn law_an_effect_is_shown<H: IdentifyHooks>(
    before: Identify<H>,
    after: Identify<H>,
    resolved: ResolvedCommand,
    b: Seq<u8>,
    items: Seq<tlv::Element>,
    effect: u8,
    ctx: InteractionContext,
    tag: Tag,
    a: InvokeAnswer,
)
    requires
        Identify::invokes(&before, &after, resolved, Some(b), ctx, tag, a),
        resolved.command == 0x40,
        fields::decode(b, seq![Field(0, Kind::U8, Need::Required), Field(1, Kind::Enum(0), Need::Required)]) == Ok::<
            Seq<tlv::Element>,
            Status,
        >(items),
        fields::num(items, 0) == Some(effect as u64),
    ensures
        after.state == before.state,
        ({
            let known = if effect == 0 {
                Some(EffectIdentifierEnum::Blink)
            } else if effect == 1 {
                Some(EffectIdentifierEnum::Breathe)
            } else if effect == 2 {
                Some(EffectIdentifierEnum::Okay)
            } else if effect == 0x0B {
                Some(EffectIdentifierEnum::ChannelChange)
            } else if effect == 0xFE {
                Some(EffectIdentifierEnum::FinishEffect)
            } else if effect == 0xFF {
                Some(EffectIdentifierEnum::StopEffect)
            } else {
                None
            };
            match known {
                Some(e) => a == im::done() && after.hooks.shown() == before.hooks.shown().push(
                    Shown::Effect(e, EffectVariantEnum::Default),
                ),
                None => a == im::refused(Status::ConstraintError) && after.hooks.shown() == before.hooks.shown(),
            }
        }),
{
    assert(effect_schema() =~= seq![Field(0, Kind::U8, Need::Required), Field(1, Kind::Enum(0), Need::Required)]);
}

/// How the cluster describes itself follows from the features and from what the product chooses: each attribute, command and event
/// is there exactly where they say so, with who may read, write or invoke it, and nothing else is.
pub proof fn law_the_cluster_describes_itself(features: u32, o: conformance::OptionalModel, c: crate::dm::ClusterModel)
    requires
        conformance::conform(defined(), features, o) == Ok::<crate::dm::ClusterModel, ErrorCode>(c),
    ensures
        c.id == 0x0003,
        c.revision == 5,
        c.feature_map == features,
        features & !0u32 == 0,
        c.attributes.contains(conformance::shown_attribute(0x0000, Some(Privilege::Operate))) == (true),
        c.attributes.contains(conformance::shown_attribute(0x0001, None)) == (true),
        c.accepted_commands.contains(conformance::shown_command(0x00, Privilege::Manage, false, false, None)) == (true),
        c.accepted_commands.contains(conformance::shown_command(0x40, Privilege::Manage, false, false, None)) == (o.commands.contains(0x40)),
        c.attributes.len() <= 2,
        c.accepted_commands.len() <= 2,
        c.events.len() <= 0,
{
    let d = defined();
    assert(conformance::told_apart(d.attributes));
    assert(conformance::told_apart(d.commands));
    assert(conformance::told_apart(d.events));
    conformance::lemma_described(d.attributes, features, o.attributes, conformance::shown_attribute(0x0000, Some(Privilege::Operate)), 0);
    conformance::lemma_described(d.attributes, features, o.attributes, conformance::shown_attribute(0x0001, None), 1);
    conformance::lemma_described(d.commands, features, o.commands, conformance::shown_command(0x00, Privilege::Manage, false, false, None), 0);
    conformance::lemma_described(d.commands, features, o.commands, conformance::shown_command(0x40, Privilege::Manage, false, false, None), 1);
    conformance::lemma_at_most(d.attributes, features, o.attributes, d.attributes.len() as int);
    conformance::lemma_at_most(d.commands, features, o.commands, d.commands.len() as int);
    conformance::lemma_at_most(d.events, features, o.events, d.events.len() as int);
}

} // verus!
