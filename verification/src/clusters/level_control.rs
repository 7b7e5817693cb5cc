//! Level Control, cluster `0x0008`: how bright, how loud, how far.
//!
//! There are two sets of commands. Those without On/Off keep the level and the switch apart, and do
//! nothing where the switch is off, unless the options say otherwise. Those with On/Off link them:
//! they switch on before the level rises above its minimum, and off when it has come down to it.

use vstd::prelude::*;

use crate::clusters::dispatch::Cluster;
use crate::clusters::level_control::recorded::Recorded;
use crate::conformance;
use crate::conformance::{Conformance, Conforming, Definition, DefinitionModel, Optional, OptionalModel};
use crate::dm::Privilege;
use crate::error::ErrorCode;
use crate::fields;
use crate::fields::{Field, Fields, Kind, Need};
use crate::im;
use crate::im::{
    AttributeId, ClusterHandler, ClusterId, CommandId, InteractionContext, InvokeAnswer, Lifecycle, ReadAnswer, Reply, Resolved,
    ResolvedCommand, Status, StatusIb, WriteOp,
};
use crate::platform;
use crate::platform::{Duration, Instant};
use crate::tlv;
use crate::tlv::{Tag, Value};

pub mod recorded;

verus! {

/// The cluster.
pub const ID: ClusterId = 0x0008;

/// Its revision.
pub const REVISION: u16 = 6;

/// `OO`: there is a switch.
pub const ON_OFF: u32 = 0x01;

/// `LT`: it is a light.
pub const LIGHTING: u32 = 0x02;

/// `FQ`: it has a frequency.
pub const FREQUENCY: u32 = 0x04;

/// `CurrentLevel`.
pub const CURRENT_LEVEL: AttributeId = 0x0000;

/// `RemainingTime`.
pub const REMAINING_TIME: AttributeId = 0x0001;

/// `MinLevel`.
pub const MIN_LEVEL: AttributeId = 0x0002;

/// `MaxLevel`.
pub const MAX_LEVEL: AttributeId = 0x0003;

/// `CurrentFrequency`.
pub const CURRENT_FREQUENCY: AttributeId = 0x0004;

/// `MinFrequency`.
pub const MIN_FREQUENCY: AttributeId = 0x0005;

/// `MaxFrequency`.
pub const MAX_FREQUENCY: AttributeId = 0x0006;

/// `Options`.
pub const OPTIONS: AttributeId = 0x000F;

/// `OnOffTransitionTime`.
pub const ON_OFF_TRANSITION_TIME: AttributeId = 0x0010;

/// `OnLevel`.
pub const ON_LEVEL: AttributeId = 0x0011;

/// `OnTransitionTime`.
pub const ON_TRANSITION_TIME: AttributeId = 0x0012;

/// `OffTransitionTime`.
pub const OFF_TRANSITION_TIME: AttributeId = 0x0013;

/// `DefaultMoveRate`.
pub const DEFAULT_MOVE_RATE: AttributeId = 0x0014;

/// `StartUpCurrentLevel`.
pub const START_UP_CURRENT_LEVEL: AttributeId = 0x4000;

/// `MoveToLevel`.
pub const MOVE_TO_LEVEL: CommandId = 0x00;

/// `Move`.
pub const MOVE: CommandId = 0x01;

/// `Step`.
pub const STEP: CommandId = 0x02;

/// `Stop`.
pub const STOP: CommandId = 0x03;

/// `MoveToLevelWithOnOff`.
pub const MOVE_TO_LEVEL_WITH_ON_OFF: CommandId = 0x04;

/// `MoveWithOnOff`.
pub const MOVE_WITH_ON_OFF: CommandId = 0x05;

/// `StepWithOnOff`.
pub const STEP_WITH_ON_OFF: CommandId = 0x06;

/// `StopWithOnOff`.
pub const STOP_WITH_ON_OFF: CommandId = 0x07;

/// `MoveToClosestFrequency`.
pub const MOVE_TO_CLOSEST_FREQUENCY: CommandId = 0x08;

/// Commands are carried out also where the switch is off.
pub const EXECUTE_IF_OFF: u8 = 0x01;

/// The options that there are.
pub const ALL_OPTIONS: u8 = 0x03;

/// The unit of every time here, in milliseconds.
pub const TICK_MILLIS: u32 = 100;

/// The least level of a light.
pub const LIGHTING_MIN: u8 = 1;

/// The greatest level of a light.
pub const LIGHTING_MAX: u8 = 254;

/// How many ticks one poll makes up for: an hour's.
pub const MAX_CATCH_UP: u32 = 36_000;

/// What a device does with its level.
pub trait LevelControlHooks {
    /// The levels that it was told, in order; a product that is itself verified says what this
    /// is.
    closed spec fn shown(&self) -> Seq<Option<u8>> {
        arbitrary()
    }

    /// The level is this; `None` where it is not known.
    fn level(&mut self, level: Option<u8>)
        ensures
            final(self).shown() == old(self).shown().push(level),
    ;

    /// Goes over to a frequency or to one close to it, where it can.
    fn frequency(&self, frequency: u16) -> (r: bool)
        default_ensures
            !r,
    {
        false
    }
}

/// The switch on the same endpoint.
pub trait OnOffState {
    /// Whether there is one.
    fn present(&self) -> (r: bool)
        default_ensures
            r,
    {
        true
    }

    /// Whether it is on.
    fn is_on(&self) -> bool;

    /// How the level switched it, in order; a product that is itself verified says what this
    /// is.
    closed spec fn switched(&self) -> Seq<bool> {
        arbitrary()
    }

    /// The level switches it.
    fn set_from_level(&mut self, on: bool)
        ensures
            final(self).switched() == old(self).switched().push(on),
    ;
}

/// An endpoint without a switch.
#[derive(Clone, Copy)]
pub struct NoOnOff {
    told: Ghost<Seq<bool>>,
}

impl Default for NoOnOff {
    fn default() -> (n: Self)
        ensures
            n.switched() == Seq::<bool>::empty(),
    {
        NoOnOff { told: Ghost(Seq::empty()) }
    }
}

impl OnOffState for NoOnOff {
    fn present(&self) -> (r: bool)
        ensures
            !r,
    {
        false
    }

    fn is_on(&self) -> (r: bool)
        ensures
            !r,
    {
        false
    }

    closed spec fn switched(&self) -> Seq<bool> {
        self.told@
    }

    fn set_from_level(&mut self, on: bool) {
        self.told = Ghost(self.told@.push(on));
    }
}

/// What a level is doing.
#[derive(Debug, Clone, Copy, PartialEq, Eq, Structural)]
pub enum Motion {
    /// Nothing.
    Idle,
    /// It goes to another level in a time.
    Transition {
        /// From here.
        from: u8,
        /// To here.
        to: u8,
        /// In so many ticks.
        ticks: u32,
        /// Of which so many are over.
        elapsed: u32,
        /// Together with the switch.
        with_on_off: bool,
    },
    /// It goes on until it has to stop.
    Move {
        /// Up rather than down.
        up: bool,
        /// By so many units in a second.
        rate: u8,
        /// Tenths of a unit that it has not gone yet.
        fraction: u32,
        /// Together with the switch.
        with_on_off: bool,
    },
}

/// A level and what it is doing.
#[derive(Debug, Clone, Copy, PartialEq, Eq, Structural)]
pub struct Dimmer {
    /// The least level.
    pub min: u8,
    /// The greatest level.
    pub max: u8,
    /// The level, where it is known.
    pub level: Option<u8>,
    /// What it is doing.
    pub motion: Motion,
    /// When it goes on.
    pub next_tick: Option<Instant>,
    /// Whether the switch is to follow when it ends.
    pub with_on_off_pending: bool,
}

/// What a device has to do: switch on, show a level, switch off, in this order.
#[derive(Debug, Clone, Copy, PartialEq, Eq, Structural)]
pub struct Effects {
    /// Switch on.
    pub turn_on: bool,
    /// Show a level.
    pub show: Option<Option<u8>>,
    /// Switch off.
    pub turn_off: bool,
}

/// Nothing to do.
pub open spec fn nothing() -> Effects {
    Effects { turn_on: false, show: None, turn_off: false }
}

/// A level within bounds.
pub open spec fn clamped(v: int, min: u8, max: u8) -> u8 {
    if v < min {
        min
    } else if v > max {
        max
    } else {
        v as u8
    }
}

/// A level, or the least where it is not known.
pub open spec fn level_or_min(d: Dimmer) -> u8 {
    match d.level {
        Some(level) => level,
        None => d.min,
    }
}

/// The moment one tick later.
pub open spec fn tick_after(t: Instant) -> Instant {
    platform::later(t, TICK_MILLIS * 1_000)
}

/// How far a transition has come after so many of its ticks: the same part of the way as of the
/// time, rounded to where it comes from, and no more than 32 bits can tell.
pub open spec fn progress(from: u8, to: u8, ticks: u32, elapsed: u32) -> u8 {
    let time = if elapsed > 0x7FFF_FFFF { 0x7FFF_FFFF } else { elapsed as int };
    let total = if ticks > 0x7FFF_FFFF { 1 } else { ticks as int };
    if to >= from {
        let way = (to - from) * time;
        let next = from + (if way > 0x7FFF_FFFF { 0x7FFF_FFFF } else { way }) / total;
        if next > 255 {
            255
        } else {
            next as u8
        }
    } else {
        let way = (from - to) * time;
        let next = from - (if way > 0x8000_0000 { 0x8000_0000 } else { way }) / total;
        if next < 0 {
            0
        } else {
            next as u8
        }
    }
}

/// A level one tick later.
pub open spec fn advanced(d: Dimmer) -> Dimmer {
    match d.motion {
        Motion::Idle => d,
        Motion::Transition { from, to, ticks, elapsed, with_on_off } => {
            let next = if elapsed == u32::MAX { elapsed } else { (elapsed + 1) as u32 };
            if next >= ticks {
                Dimmer { level: Some(to), motion: Motion::Idle, ..d }
            } else {
                Dimmer {
                    level: Some(progress(from, to, ticks, next)),
                    motion: Motion::Transition { from, to, ticks, elapsed: next, with_on_off },
                    ..d
                }
            }
        },
        Motion::Move { up, rate, fraction, with_on_off } => {
            let tenths = if fraction + rate > u32::MAX { u32::MAX as int } else { fraction + rate };
            let whole = tenths / 10;
            let level = level_or_min(d);
            let next = moved(level, up, whole, d.min, d.max);
            Dimmer {
                level: Some(next),
                motion: if (up && next >= d.max) || (!up && next <= d.min) {
                    Motion::Idle
                } else {
                    Motion::Move { up, rate, fraction: (tenths % 10) as u32, with_on_off }
                },
                ..d
            }
        },
    }
}

/// Where a level comes to that goes so many units, and no further than a bound.
pub open spec fn moved(level: u8, up: bool, units: int, min: u8, max: u8) -> u8 {
    if up {
        if level + units > max {
            max
        } else {
            (level + units) as u8
        }
    } else {
        let below = if units > level { 0 } else { level - units };
        if below < min {
            min
        } else {
            below as u8
        }
    }
}

/// A level after the ticks that are due by a moment, at most so many, and when the next is due.
pub open spec fn run(d: Dimmer, due: Instant, now: Instant, most: nat) -> (Dimmer, Instant)
    decreases most,
{
    if most == 0 || now.micros < due.micros || d.motion is Idle {
        (d, due)
    } else {
        run(advanced(d), tick_after(due), now, (most - 1) as nat)
    }
}

/// A level whose motion ended: the switch follows where it has to.
pub open spec fn settled(d: Dimmer) -> (Dimmer, bool) {
    (Dimmer { with_on_off_pending: false, ..d }, d.with_on_off_pending && d.level == Some(d.min))
}

/// What a poll comes to.
pub open spec fn polled(d: Dimmer, now: Instant) -> (Dimmer, Effects) {
    match d.next_tick {
        None => (d, nothing()),
        Some(due) => if now.micros < due.micros {
            (d, nothing())
        } else {
            let (after, next) = run(d, due, now, MAX_CATCH_UP as nat);
            if after.motion is Idle {
                let (end, off) = settled(Dimmer { next_tick: None, ..after });
                (end, Effects { turn_on: false, show: Some(end.level), turn_off: off })
            } else {
                (
                    Dimmer { next_tick: Some(next), ..after },
                    Effects { turn_on: false, show: Some(after.level), turn_off: false },
                )
            }
        },
    }
}

/// What starting a transition comes to.
pub open spec fn transitioned(d: Dimmer, target: int, ticks: u32, with_on_off: bool, now: Instant) -> (Dimmer, Effects) {
    let to = clamped(target, d.min, d.max);
    let from = level_or_min(d);
    let on = with_on_off && to > d.min;
    if ticks == 0 || from == to {
        let (end, off) = settled(
            Dimmer {
                level: Some(to),
                motion: Motion::Idle,
                next_tick: None,
                with_on_off_pending: with_on_off,
                ..d
            },
        );
        (end, Effects { turn_on: on, show: Some(end.level), turn_off: off })
    } else {
        (
            Dimmer {
                motion: Motion::Transition { from, to, ticks, elapsed: 0, with_on_off },
                next_tick: Some(tick_after(now)),
                with_on_off_pending: with_on_off,
                ..d
            },
            Effects { turn_on: on, show: Some(d.level), turn_off: false },
        )
    }
}

/// What starting to move comes to; a rate of zero stands for as fast as it can.
pub open spec fn moving(d: Dimmer, up: bool, rate: u8, with_on_off: bool, now: Instant) -> (Dimmer, Effects) {
    let on = with_on_off && up;
    if rate == 0 {
        let (after, effects) = transitioned(d, (if up { d.max } else { d.min }) as int, 0, with_on_off, now);
        (after, Effects { turn_on: on || effects.turn_on, ..effects })
    } else {
        (
            Dimmer {
                motion: Motion::Move { up, rate, fraction: 0, with_on_off },
                next_tick: Some(tick_after(now)),
                with_on_off_pending: with_on_off,
                ..d
            },
            Effects { turn_on: on, ..nothing() },
        )
    }
}

/// A level that stays where it is.
pub open spec fn stopped(d: Dimmer) -> Dimmer {
    Dimmer { motion: Motion::Idle, next_tick: None, with_on_off_pending: false, ..d }
}

/// Where a step goes to, and in how many ticks: fewer where a bound cuts it short.
pub open spec fn step_goal(d: Dimmer, up: bool, size: u8, requested: u32) -> (u8, u32) {
    let from = level_or_min(d);
    let to = clamped(if up { from + size } else { from - size }, d.min, d.max);
    let actual = if to >= from { to - from } else { from - to };
    (to, if size == 0 { 0 } else { (requested * actual / (size as int)) as u32 })
}

/// How long a level still moves, in ticks.
pub open spec fn remaining(d: Dimmer) -> u16 {
    match d.motion {
        Motion::Idle => 0,
        Motion::Transition { ticks, elapsed, .. } => if elapsed >= ticks {
            0
        } else if ticks - elapsed > 0xFFFF {
            0xFFFF
        } else {
            (ticks - elapsed) as u16
        },
        Motion::Move { up, rate, .. } => {
            let level = level_or_min(d);
            let distance = if up {
                if level >= d.max { 0 } else { d.max - level }
            } else {
                if level <= d.min { 0 } else { level - d.min }
            };
            if rate == 0 {
                0
            } else {
                ((distance * 10 + rate - 1) / (rate as int)) as u16
            }
        },
    }
}

fn clamp_level(v: u8, min: u8, max: u8) -> (r: u8)
    ensures
        r == clamped(v as int, min, max),
{
    if v < min {
        min
    } else if v > max {
        max
    } else {
        v
    }
}

fn interpolate(from: u8, to: u8, ticks: u32, elapsed: u32) -> (level: u8)
    requires
        elapsed < ticks,
    ensures
        level == progress(from, to, ticks, elapsed),
{
    let time: u64 = if elapsed > 0x7FFF_FFFF {
        0x7FFF_FFFF
    } else {
        elapsed as u64
    };
    let total: u64 = if ticks > 0x7FFF_FFFF {
        1
    } else {
        ticks as u64
    };
    if to >= from {
        let distance: u64 = (to - from) as u64;
        proof {
            assert(distance * time <= 255 * 0x7FFF_FFFF) by (nonlinear_arith)
                requires
                    distance <= 255,
                    time <= 0x7FFF_FFFF,
            ;
        }
        let mut way: u64 = distance * time;
        if way > 0x7FFF_FFFF {
            way = 0x7FFF_FFFF;
        }
        let next: u64 = from as u64 + way / total;
        if next > 255 {
            255
        } else {
            next as u8
        }
    } else {
        let distance: u64 = (from - to) as u64;
        proof {
            assert(distance * time <= 255 * 0x7FFF_FFFF) by (nonlinear_arith)
                requires
                    distance <= 255,
                    time <= 0x7FFF_FFFF,
            ;
        }
        let mut way: u64 = distance * time;
        if way > 0x8000_0000 {
            way = 0x8000_0000;
        }
        let gone: u64 = way / total;
        if gone > from as u64 {
            0
        } else {
            (from as u64 - gone) as u8
        }
    }
}

impl Dimmer {
    /// A level that is not known, between two bounds.
    pub fn new(min: u8, max: u8) -> (d: Self)
        ensures
            d == (Dimmer { min, max, level: None, motion: Motion::Idle, next_tick: None, with_on_off_pending: false }),
    {
        Dimmer { min, max, level: None, motion: Motion::Idle, next_tick: None, with_on_off_pending: false }
    }

    fn level_or_min(&self) -> (level: u8)
        ensures
            level == level_or_min(*self),
    {
        match self.level {
            Some(level) => level,
            None => self.min,
        }
    }

    /// Goes on by one tick.
    pub fn advance(&mut self)
        ensures
            *final(self) == advanced(*old(self)),
    {
        match self.motion {
            Motion::Idle => {},
            Motion::Transition { from, to, ticks, elapsed, with_on_off } => {
                let next: u32 = if elapsed == u32::MAX {
                    elapsed
                } else {
                    elapsed + 1
                };
                if next >= ticks {
                    self.level = Some(to);
                    self.motion = Motion::Idle;
                } else {
                    self.level = Some(interpolate(from, to, ticks, next));
                    self.motion = Motion::Transition { from, to, ticks, elapsed: next, with_on_off };
                }
            },
            Motion::Move { up, rate, fraction, with_on_off } => {
                let tenths: u32 = if fraction > u32::MAX - rate as u32 {
                    u32::MAX
                } else {
                    fraction + rate as u32
                };
                let whole: u32 = tenths / 10;
                let level: u8 = self.level_or_min();
                let next: u8 = if up {
                    if whole as u64 + level as u64 > self.max as u64 {
                        self.max
                    } else {
                        (level as u64 + whole as u64) as u8
                    }
                } else {
                    let below: u8 = if whole > level as u32 {
                        0
                    } else {
                        (level as u32 - whole) as u8
                    };
                    if below < self.min {
                        self.min
                    } else {
                        below
                    }
                };
                self.level = Some(next);
                self.motion = if (up && next >= self.max) || (!up && next <= self.min) {
                    Motion::Idle
                } else {
                    Motion::Move { up, rate, fraction: tenths % 10, with_on_off }
                };
            },
        }
    }

    fn is_idle(&self) -> (r: bool)
        ensures
            r == (self.motion is Idle),
    {
        matches!(self.motion, Motion::Idle)
    }

    fn settle(&mut self) -> (off: bool)
        ensures
            (*final(self), off) == settled(*old(self)),
    {
        let at_min: bool = match self.level {
            Some(level) => level == self.min,
            None => false,
        };
        let off: bool = self.with_on_off_pending && at_min;
        self.with_on_off_pending = false;
        off
    }

    /// Goes on by what is due.
    pub fn poll(&mut self, now: Instant) -> (e: Effects)
        ensures
            (*final(self), e) == polled(*old(self), now),
    {
        let mut due: Instant = match self.next_tick {
            None => return Effects { turn_on: false, show: None, turn_off: false },
            Some(due) => due,
        };
        if now.micros < due.micros {
            return Effects { turn_on: false, show: None, turn_off: false };
        }
        let ghost first = due;
        let mut ticks: u32 = 0;
        while now.micros >= due.micros && ticks < MAX_CATCH_UP && !self.is_idle()
            invariant
                ticks <= MAX_CATCH_UP,
                run(*old(self), first, now, MAX_CATCH_UP as nat) == run(*self, due, now, (MAX_CATCH_UP - ticks) as nat),
            decreases MAX_CATCH_UP - ticks,
        {
            ticks = ticks + 1;
            due = due.saturating_add(Duration::from_millis(TICK_MILLIS));
            self.advance();
        }
        if self.is_idle() {
            self.next_tick = None;
            let off: bool = self.settle();
            Effects { turn_on: false, show: Some(self.level), turn_off: off }
        } else {
            self.next_tick = Some(due);
            Effects { turn_on: false, show: Some(self.level), turn_off: false }
        }
    }

    /// Starts to go to a level.
    pub fn begin_transition(&mut self, target: u8, ticks: u32, with_on_off: bool, now: Instant) -> (e: Effects)
        ensures
            (*final(self), e) == transitioned(*old(self), target as int, ticks, with_on_off, now),
    {
        let to: u8 = clamp_level(target, self.min, self.max);
        let turn_on: bool = with_on_off && to > self.min;
        let from: u8 = self.level_or_min();
        if ticks == 0 || from == to {
            self.level = Some(to);
            self.motion = Motion::Idle;
            self.next_tick = None;
            self.with_on_off_pending = with_on_off;
            let turn_off: bool = self.settle();
            Effects { turn_on, show: Some(self.level), turn_off }
        } else {
            self.motion = Motion::Transition { from, to, ticks, elapsed: 0, with_on_off };
            self.next_tick = Some(now.saturating_add(Duration::from_millis(TICK_MILLIS)));
            self.with_on_off_pending = with_on_off;
            Effects { turn_on, show: Some(self.level), turn_off: false }
        }
    }

    /// Starts to move.
    pub fn begin_move(&mut self, up: bool, rate: u8, with_on_off: bool, now: Instant) -> (e: Effects)
        ensures
            (*final(self), e) == moving(*old(self), up, rate, with_on_off, now),
    {
        let on: bool = with_on_off && up;
        if rate == 0 {
            let target: u8 = if up {
                self.max
            } else {
                self.min
            };
            let e: Effects = self.begin_transition(target, 0, with_on_off, now);
            return Effects { turn_on: on || e.turn_on, ..e };
        }
        self.motion = Motion::Move { up, rate, fraction: 0, with_on_off };
        self.next_tick = Some(now.saturating_add(Duration::from_millis(TICK_MILLIS)));
        self.with_on_off_pending = with_on_off;
        Effects { turn_on: on, show: None, turn_off: false }
    }

    /// Where a step goes to, and in how many ticks.
    pub fn step_goal(&self, up: bool, size: u8, requested: u32) -> (r: (u8, u32))
        requires
            requested <= 0xFFFF,
        ensures
            r == step_goal(*self, up, size, requested),
    {
        let from: u8 = self.level_or_min();
        let unclipped: u16 = if up {
            from as u16 + size as u16
        } else if size > from {
            0
        } else {
            from as u16 - size as u16
        };
        let to: u8 = if unclipped > 255 {
            if self.max < self.min {
                clamp_level(255, self.min, self.max)
            } else {
                self.max
            }
        } else {
            clamp_level(unclipped as u8, self.min, self.max)
        };
        let actual: u32 = if to >= from {
            (to - from) as u32
        } else {
            (from - to) as u32
        };
        if size == 0 {
            return (to, 0);
        }
        proof {
            assert(requested * actual <= 0xFFFF * 255) by (nonlinear_arith)
                requires
                    requested <= 0xFFFF,
                    actual <= 255,
            ;
        }
        (to, requested * actual / size as u32)
    }

    /// Stays where it is.
    pub fn stop(&mut self)
        ensures
            *final(self) == stopped(*old(self)),
    {
        self.motion = Motion::Idle;
        self.next_tick = None;
        self.with_on_off_pending = false;
    }

    /// How long it still moves, in ticks.
    pub fn remaining_time(&self) -> (t: u16)
        ensures
            t == remaining(*self),
    {
        match self.motion {
            Motion::Idle => 0,
            Motion::Transition { ticks, elapsed, .. } => {
                if elapsed >= ticks {
                    0
                } else if ticks - elapsed > 0xFFFF {
                    0xFFFF
                } else {
                    (ticks - elapsed) as u16
                }
            },
            Motion::Move { up, rate, .. } => {
                let level: u8 = self.level_or_min();
                let distance: u32 = if up {
                    if level >= self.max {
                        0
                    } else {
                        (self.max - level) as u32
                    }
                } else {
                    if level <= self.min {
                        0
                    } else {
                        (level - self.min) as u32
                    }
                };
                if rate == 0 {
                    0
                } else {
                    let tenths: u32 = distance * 10 + (rate as u32 - 1);
                    proof {
                        assert(tenths / rate as u32 <= tenths) by (nonlinear_arith)
                            requires
                                rate >= 1,
                        ;
                    }
                    (tenths / rate as u32) as u16
                }
            },
        }
    }
}

/// What clients can set.
#[derive(Debug, Clone, Copy, PartialEq, Eq, Structural)]
pub struct Settings {
    /// `Options`.
    pub options: u8,
    /// `OnOffTransitionTime`.
    pub on_off_transition_time: u16,
    /// `OnLevel`.
    pub on_level: Option<u8>,
    /// `OnTransitionTime`.
    pub on_transition_time: Option<u16>,
    /// `OffTransitionTime`.
    pub off_transition_time: Option<u16>,
    /// `DefaultMoveRate`.
    pub default_move_rate: Option<u8>,
    /// `StartUpCurrentLevel`.
    pub start_up_current_level: Option<u8>,
    /// `CurrentFrequency`.
    pub frequency: u16,
}

/// Everything that a command can change.
#[derive(Debug, Clone, Copy, PartialEq, Eq, Structural)]
pub struct State {
    /// The level.
    pub dimmer: Dimmer,
    /// What clients can set.
    pub settings: Settings,
}

/// The options in force: the attribute's, but for those that a command masks.
pub open spec fn effective(options: u8, mask: u8, over: u8) -> u8 {
    (options & !mask) | (over & mask)
}

/// Whether a command without On/Off is not carried out: there is a switch, it is off, and the
/// options do not say otherwise.
pub open spec fn blocked(present: bool, on: bool, options: u8) -> bool {
    present && !on && options & EXECUTE_IF_OFF == 0
}

/// A time in ticks, or the one that is set.
pub open spec fn ticks_of(s: Settings, requested: Option<u16>) -> u32 {
    match requested {
        Some(t) => t as u32,
        None => s.on_off_transition_time as u32,
    }
}

/// The level that a device starts with.
pub open spec fn started(d: Dimmer, start_up: Option<u8>, previous: Option<u8>) -> Dimmer {
    Dimmer {
        level: match start_up {
            Some(v) => Some(if v == 0 { d.min } else { clamped(v as int, d.min, d.max) }),
            None => match previous {
                Some(v) => Some(clamped(v as int, d.min, d.max)),
                None => None,
            },
        },
        ..d
    }
}

/// What a change of the switch comes to, for a device that couples them: up from the least level to
/// the one that is set or was stored, or down to the least.
pub open spec fn coupled(st: State, on: bool, stored: Option<u8>, now: Instant) -> (Dimmer, Effects) {
    let s = st.settings;
    if on {
        let ticks = match s.on_transition_time {
            Some(t) => t,
            None => s.on_off_transition_time,
        };
        let target = match s.on_level {
            Some(level) => level,
            None => match stored {
                Some(level) => level,
                None => st.dimmer.max,
            },
        };
        transitioned(Dimmer { level: Some(st.dimmer.min), ..st.dimmer }, target as int, ticks as u32, false, now)
    } else {
        let ticks = match s.off_transition_time {
            Some(t) => t,
            None => s.on_off_transition_time,
        };
        transitioned(st.dimmer, st.dimmer.min as int, ticks as u32, false, now)
    }
}

/// The fields of `MoveToLevel`.
pub open spec fn move_to_schema() -> Seq<Field> {
    seq![
        Field(0, Kind::U8, Need::Required),
        Field(1, Kind::U16, Need::Nullable),
        Field(2, Kind::Enum(ALL_OPTIONS), Need::Required),
        Field(3, Kind::Enum(ALL_OPTIONS), Need::Required),
    ]
}

/// The fields of `Move`.
pub open spec fn move_schema() -> Seq<Field> {
    seq![
        Field(0, Kind::Enum(1), Need::Required),
        Field(1, Kind::U8, Need::Nullable),
        Field(2, Kind::Enum(ALL_OPTIONS), Need::Required),
        Field(3, Kind::Enum(ALL_OPTIONS), Need::Required),
    ]
}

/// The fields of `Step`.
pub open spec fn step_schema() -> Seq<Field> {
    seq![
        Field(0, Kind::Enum(1), Need::Required),
        Field(1, Kind::U8, Need::Required),
        Field(2, Kind::U16, Need::Nullable),
        Field(3, Kind::Enum(ALL_OPTIONS), Need::Required),
        Field(4, Kind::Enum(ALL_OPTIONS), Need::Required),
    ]
}

/// The fields of `Stop`.
pub open spec fn stop_schema() -> Seq<Field> {
    seq![Field(0, Kind::Enum(ALL_OPTIONS), Need::Required), Field(1, Kind::Enum(ALL_OPTIONS), Need::Required)]
}

/// The fields of `MoveToClosestFrequency`.
pub open spec fn frequency_schema() -> Seq<Field> {
    seq![Field(0, Kind::U16, Need::Required)]
}

/// What a command asks for.
#[derive(Debug, Clone, Copy, PartialEq, Eq, Structural)]
pub enum Request {
    /// A level, in a time.
    MoveTo {
        /// The level.
        level: u8,
        /// The time.
        time: Option<u16>,
        /// The options that it masks.
        mask: u8,
        /// What it masks them with.
        over: u8,
    },
    /// To go on.
    Move {
        /// Up rather than down.
        up: bool,
        /// How fast.
        rate: Option<u8>,
        /// The options that it masks.
        mask: u8,
        /// What it masks them with.
        over: u8,
    },
    /// To go so far, in a time.
    Step {
        /// Up rather than down.
        up: bool,
        /// How far.
        size: u8,
        /// The time.
        time: Option<u16>,
        /// The options that it masks.
        mask: u8,
        /// What it masks them with.
        over: u8,
    },
    /// To stay.
    Stop {
        /// The options that it masks.
        mask: u8,
        /// What it masks them with.
        over: u8,
    },
    /// A frequency.
    Frequency(u16),
}

/// Whether a command works together with the switch.
pub open spec fn linked(command: CommandId) -> bool {
    command == MOVE_TO_LEVEL_WITH_ON_OFF || command == MOVE_WITH_ON_OFF || command == STEP_WITH_ON_OFF || command
        == STOP_WITH_ON_OFF
}

/// What a command asks for, or what is wrong with it: a rate or a step of zero is an invalid command.
pub open spec fn decoded(command: CommandId, data: Option<Seq<u8>>) -> Result<Request, Status> {
    if command == MOVE_TO_LEVEL || command == MOVE_TO_LEVEL_WITH_ON_OFF {
        match fields::decode_some(data, move_to_schema()) {
            Err(status) => Err(status),
            Ok(items) => match (fields::num8(items, 0), fields::num8(items, 2), fields::num8(items, 3)) {
                (Some(level), Some(mask), Some(over)) => Ok(
                    Request::MoveTo { level, time: fields::num16(items, 1), mask, over },
                ),
                _ => Err(Status::InvalidCommand),
            },
        }
    } else if command == MOVE || command == MOVE_WITH_ON_OFF {
        match fields::decode_some(data, move_schema()) {
            Err(status) => Err(status),
            Ok(items) => match (fields::num8(items, 0), fields::num8(items, 2), fields::num8(items, 3)) {
                (Some(mode), Some(mask), Some(over)) => if fields::num8(items, 1) == Some(0u8) {
                    Err(Status::InvalidCommand)
                } else {
                    Ok(Request::Move { up: mode == 0, rate: fields::num8(items, 1), mask, over })
                },
                _ => Err(Status::InvalidCommand),
            },
        }
    } else if command == STEP || command == STEP_WITH_ON_OFF {
        match fields::decode_some(data, step_schema()) {
            Err(status) => Err(status),
            Ok(items) => match (
                fields::num8(items, 0),
                fields::num8(items, 1),
                fields::num8(items, 3),
                fields::num8(items, 4),
            ) {
                (Some(mode), Some(size), Some(mask), Some(over)) => if size == 0 {
                    Err(Status::InvalidCommand)
                } else {
                    Ok(Request::Step { up: mode == 0, size, time: fields::num16(items, 2), mask, over })
                },
                _ => Err(Status::InvalidCommand),
            },
        }
    } else if command == STOP || command == STOP_WITH_ON_OFF {
        match fields::decode_some(data, stop_schema()) {
            Err(status) => Err(status),
            Ok(items) => match (fields::num8(items, 0), fields::num8(items, 1)) {
                (Some(mask), Some(over)) => Ok(Request::Stop { mask, over }),
                _ => Err(Status::InvalidCommand),
            },
        }
    } else if command == MOVE_TO_CLOSEST_FREQUENCY {
        match fields::decode_some(data, frequency_schema()) {
            Err(status) => Err(status),
            Ok(items) => match fields::num16(items, 0) {
                Some(f) => Ok(Request::Frequency(f)),
                None => Err(Status::InvalidCommand),
            },
        }
    } else {
        Err(Status::UnsupportedCommand)
    }
}

/// The options that a command masks, and what with; none for a frequency.
pub open spec fn masks(r: Request) -> (u8, u8) {
    match r {
        Request::MoveTo { mask, over, .. } => (mask, over),
        Request::Move { mask, over, .. } => (mask, over),
        Request::Step { mask, over, .. } => (mask, over),
        Request::Stop { mask, over } => (mask, over),
        Request::Frequency(_) => (0, 0),
    }
}

/// Whether a request is not carried out because the switch is off.
pub open spec fn held_back(st: State, r: Request, with_on_off: bool, present: bool, on: bool) -> bool {
    &&& !with_on_off
    &&& !(r is Frequency)
    &&& blocked(present, on, effective(st.settings.options, masks(r).0, masks(r).1))
}

/// What a request comes to, given whether there is a switch, whether it is on, and whether the
/// device can take on a frequency.
pub open spec fn requested(
    st: State,
    r: Request,
    with_on_off: bool,
    present: bool,
    on: bool,
    tunable: bool,
    now: Instant,
) -> (State, Effects, Option<Status>) {
    if held_back(st, r, with_on_off, present, on) {
        (st, nothing(), None)
    } else {
        match r {
            Request::MoveTo { level, time, .. } => {
                let (dimmer, e) = transitioned(st.dimmer, level as int, ticks_of(st.settings, time), with_on_off, now);
                (State { dimmer, ..st }, e, None)
            },
            Request::Move { up, rate, .. } => {
                let speed = match rate {
                    Some(v) => v,
                    None => match st.settings.default_move_rate {
                        Some(v) => v,
                        None => 0,
                    },
                };
                let (dimmer, e) = moving(st.dimmer, up, speed, with_on_off, now);
                (State { dimmer, ..st }, e, None)
            },
            Request::Step { up, size, time, .. } => {
                let (to, ticks) = step_goal(st.dimmer, up, size, ticks_of(st.settings, time));
                let (dimmer, e) = transitioned(st.dimmer, to as int, ticks, with_on_off, now);
                (State { dimmer, ..st }, e, None)
            },
            Request::Stop { .. } => (State { dimmer: stopped(st.dimmer), ..st }, nothing(), None),
            Request::Frequency(frequency) => if tunable {
                (State { settings: Settings { frequency, ..st.settings }, ..st }, nothing(), None)
            } else {
                (st, nothing(), Some(Status::ConstraintError))
            },
        }
    }
}

/// What a command comes to, given what the device says.
pub open spec fn commanded(
    st: State,
    command: CommandId,
    data: Option<Seq<u8>>,
    present: bool,
    on: bool,
    tunable: bool,
    now: Instant,
) -> (State, Effects, InvokeAnswer) {
    match decoded(command, data) {
        Err(status) => (st, nothing(), im::refused(status)),
        Ok(r) => {
            let (after, e, refused) = requested(st, r, linked(command), present, on, tunable, now);
            (
                after,
                e,
                match refused {
                    None => im::done(),
                    Some(status) => im::refused(status),
                },
            )
        },
    }
}

/// The number that a write gives, or null, or why it is refused.
pub open spec fn number_written(v: Value, max: u64) -> Result<Option<u64>, Status> {
    match v {
        Value::Unsigned(v) => if v > max { Err(Status::ConstraintError) } else { Ok(Some(v)) },
        Value::Null => Ok(None),
        _ => Err(Status::InvalidDataType),
    }
}

/// A number of 8 bits that a write gives, or null, or why it is refused.
pub open spec fn byte_written(v: Value) -> Result<Option<u8>, Status> {
    match number_written(v, 0xFF) {
        Err(status) => Err(status),
        Ok(Some(v)) => Ok(Some(v as u8)),
        Ok(None) => Ok(None),
    }
}

/// A number of 16 bits that a write gives, or null, or why it is refused.
pub open spec fn short_written(v: Value) -> Result<Option<u16>, Status> {
    match number_written(v, 0xFFFF) {
        Err(status) => Err(status),
        Ok(Some(v)) => Ok(Some(v as u16)),
        Ok(None) => Ok(None),
    }
}

/// What a write of a value comes to.
pub open spec fn set(st: State, id: AttributeId, v: Value) -> Result<Settings, Status> {
    let s = st.settings;
    if id == OPTIONS {
        match byte_written(v) {
            Err(status) => Err(status),
            Ok(None) => Err(Status::InvalidDataType),
            Ok(Some(options)) => if options > ALL_OPTIONS {
                Err(Status::ConstraintError)
            } else {
                Ok(Settings { options, ..s })
            },
        }
    } else if id == ON_OFF_TRANSITION_TIME {
        match short_written(v) {
            Err(status) => Err(status),
            Ok(None) => Err(Status::InvalidDataType),
            Ok(Some(on_off_transition_time)) => Ok(Settings { on_off_transition_time, ..s }),
        }
    } else if id == ON_LEVEL {
        match byte_written(v) {
            Err(status) => Err(status),
            Ok(on_level) => if on_level matches Some(level) && (level < st.dimmer.min || level > st.dimmer.max) {
                Err(Status::ConstraintError)
            } else {
                Ok(Settings { on_level, ..s })
            },
        }
    } else if id == ON_TRANSITION_TIME {
        match short_written(v) {
            Err(status) => Err(status),
            Ok(on_transition_time) => Ok(Settings { on_transition_time, ..s }),
        }
    } else if id == OFF_TRANSITION_TIME {
        match short_written(v) {
            Err(status) => Err(status),
            Ok(off_transition_time) => Ok(Settings { off_transition_time, ..s }),
        }
    } else if id == DEFAULT_MOVE_RATE {
        match byte_written(v) {
            Err(status) => Err(status),
            Ok(default_move_rate) => if default_move_rate == Some(0u8) {
                Err(Status::ConstraintError)
            } else {
                Ok(Settings { default_move_rate, ..s })
            },
        }
    } else if id == START_UP_CURRENT_LEVEL {
        match byte_written(v) {
            Err(status) => Err(status),
            Ok(start_up_current_level) => Ok(Settings { start_up_current_level, ..s }),
        }
    } else {
        Err(Status::UnsupportedWrite)
    }
}

/// What a write comes to.
pub open spec fn written(st: State, id: AttributeId, b: Seq<u8>) -> Result<Settings, Status> {
    match tlv::element_at(b, 0) {
        None => Err(Status::InvalidAction),
        Some((e, _)) => set(st, id, e.value),
    }
}

fn byte_in(v: Value) -> (r: Result<Option<u8>, Status>)
    ensures
        r == byte_written(v),
{
    match v {
        Value::Unsigned(v) => {
            if v > 0xFF {
                Err(Status::ConstraintError)
            } else {
                Ok(Some(v as u8))
            }
        },
        Value::Null => Ok(None),
        _ => Err(Status::InvalidDataType),
    }
}

fn short_in(v: Value) -> (r: Result<Option<u16>, Status>)
    ensures
        r == short_written(v),
{
    match v {
        Value::Unsigned(v) => {
            if v > 0xFFFF {
                Err(Status::ConstraintError)
            } else {
                Ok(Some(v as u16))
            }
        },
        Value::Null => Ok(None),
        _ => Err(Status::InvalidDataType),
    }
}

/// Reads what a command asks for.
pub fn decode(command: CommandId, data: Option<&[u8]>) -> (r: Result<Request, Status>)
    ensures
        r == decoded(command, im::octets(data)),
{
    match command {
        MOVE_TO_LEVEL | MOVE_TO_LEVEL_WITH_ON_OFF => decode_move_to(data),
        MOVE | MOVE_WITH_ON_OFF => decode_move(data),
        STEP | STEP_WITH_ON_OFF => decode_step(data),
        STOP | STOP_WITH_ON_OFF => decode_stop(data),
        MOVE_TO_CLOSEST_FREQUENCY => decode_frequency(data),
        _ => Err(Status::UnsupportedCommand),
    }
}

fn decode_move_to(data: Option<&[u8]>) -> (r: Result<Request, Status>)
    ensures
        r == decoded(MOVE_TO_LEVEL, im::octets(data)),
{
    let schema: Vec<Field> = vec![
        Field(0, Kind::U8, Need::Required),
        Field(1, Kind::U16, Need::Nullable),
        Field(2, Kind::Enum(ALL_OPTIONS), Need::Required),
        Field(3, Kind::Enum(ALL_OPTIONS), Need::Required),
    ];
    proof {
        assert(schema@ =~= move_to_schema());
    }
    let f: Fields = match fields::read_some(data, &schema) {
        Err(status) => return Err(status),
        Ok(f) => f,
    };
    match (f.num8(0), f.num8(2), f.num8(3)) {
        (Some(level), Some(mask), Some(over)) => Ok(Request::MoveTo { level, time: f.num16(1), mask, over }),
        _ => Err(Status::InvalidCommand),
    }
}

fn decode_move(data: Option<&[u8]>) -> (r: Result<Request, Status>)
    ensures
        r == decoded(MOVE, im::octets(data)),
{
    let schema: Vec<Field> = vec![
        Field(0, Kind::Enum(1), Need::Required),
        Field(1, Kind::U8, Need::Nullable),
        Field(2, Kind::Enum(ALL_OPTIONS), Need::Required),
        Field(3, Kind::Enum(ALL_OPTIONS), Need::Required),
    ];
    proof {
        assert(schema@ =~= move_schema());
    }
    let f: Fields = match fields::read_some(data, &schema) {
        Err(status) => return Err(status),
        Ok(f) => f,
    };
    match (f.num8(0), f.num8(2), f.num8(3)) {
        (Some(mode), Some(mask), Some(over)) => {
            let rate: Option<u8> = f.num8(1);
            if let Some(0) = rate {
                return Err(Status::InvalidCommand);
            }
            Ok(Request::Move { up: mode == 0, rate, mask, over })
        },
        _ => Err(Status::InvalidCommand),
    }
}

fn decode_step(data: Option<&[u8]>) -> (r: Result<Request, Status>)
    ensures
        r == decoded(STEP, im::octets(data)),
{
    let schema: Vec<Field> = vec![
        Field(0, Kind::Enum(1), Need::Required),
        Field(1, Kind::U8, Need::Required),
        Field(2, Kind::U16, Need::Nullable),
        Field(3, Kind::Enum(ALL_OPTIONS), Need::Required),
        Field(4, Kind::Enum(ALL_OPTIONS), Need::Required),
    ];
    proof {
        assert(schema@ =~= step_schema());
    }
    let f: Fields = match fields::read_some(data, &schema) {
        Err(status) => return Err(status),
        Ok(f) => f,
    };
    match (f.num8(0), f.num8(1), f.num8(3), f.num8(4)) {
        (Some(mode), Some(size), Some(mask), Some(over)) => {
            if size == 0 {
                return Err(Status::InvalidCommand);
            }
            Ok(Request::Step { up: mode == 0, size, time: f.num16(2), mask, over })
        },
        _ => Err(Status::InvalidCommand),
    }
}

fn decode_stop(data: Option<&[u8]>) -> (r: Result<Request, Status>)
    ensures
        r == decoded(STOP, im::octets(data)),
{
    let schema: Vec<Field> = vec![
        Field(0, Kind::Enum(ALL_OPTIONS), Need::Required),
        Field(1, Kind::Enum(ALL_OPTIONS), Need::Required),
    ];
    proof {
        assert(schema@ =~= stop_schema());
    }
    let f: Fields = match fields::read_some(data, &schema) {
        Err(status) => return Err(status),
        Ok(f) => f,
    };
    match (f.num8(0), f.num8(1)) {
        (Some(mask), Some(over)) => Ok(Request::Stop { mask, over }),
        _ => Err(Status::InvalidCommand),
    }
}

fn decode_frequency(data: Option<&[u8]>) -> (r: Result<Request, Status>)
    ensures
        r == decoded(MOVE_TO_CLOSEST_FREQUENCY, im::octets(data)),
{
    let schema: Vec<Field> = vec![Field(0, Kind::U16, Need::Required)];
    proof {
        assert(schema@ =~= frequency_schema());
    }
    let f: Fields = match fields::read_some(data, &schema) {
        Err(status) => return Err(status),
        Ok(f) => f,
    };
    match f.num16(0) {
        Some(frequency) => Ok(Request::Frequency(frequency)),
        None => Err(Status::InvalidCommand),
    }
}

fn is_linked(command: CommandId) -> (r: bool)
    ensures
        r == linked(command),
{
    matches!(command, MOVE_TO_LEVEL_WITH_ON_OFF | MOVE_WITH_ON_OFF | STEP_WITH_ON_OFF | STOP_WITH_ON_OFF)
}

fn effective_options(options: u8, mask: u8, over: u8) -> (r: u8)
    ensures
        r == effective(options, mask, over),
{
    (options & !mask) | (over & mask)
}

impl State {
    fn transition_ticks(&self, time: Option<u16>) -> (t: u32)
        ensures
            t == ticks_of(self.settings, time),
            t <= 0xFFFF,
    {
        match time {
            Some(t) => t as u32,
            None => self.settings.on_off_transition_time as u32,
        }
    }

    fn is_held_back(&self, r: &Request, with_on_off: bool, present: bool, on: bool) -> (b: bool)
        ensures
            b == held_back(*self, *r, with_on_off, present, on),
    {
        let (mask, over): (u8, u8) = match *r {
            Request::MoveTo { mask, over, .. } => (mask, over),
            Request::Move { mask, over, .. } => (mask, over),
            Request::Step { mask, over, .. } => (mask, over),
            Request::Stop { mask, over } => (mask, over),
            Request::Frequency(_) => return false,
        };
        !with_on_off && present && !on && effective_options(self.settings.options, mask, over) & EXECUTE_IF_OFF == 0
    }

    /// Carries out a request, given whether there is a switch, whether it is on, and whether the
    /// device can take on a frequency.
    pub fn request(&mut self, r: &Request, with_on_off: bool, present: bool, on: bool, tunable: bool, now: Instant) -> (x: (
        Effects,
        Result<(), Status>,
    ))
        ensures
            (*final(self), x.0, refusal(x.1)) == requested(*old(self), *r, with_on_off, present, on, tunable, now),
    {
        let none: Effects = Effects { turn_on: false, show: None, turn_off: false };
        if self.is_held_back(r, with_on_off, present, on) {
            return (none, Ok(()));
        }
        match *r {
            Request::MoveTo { level, time, .. } => {
                let ticks: u32 = self.transition_ticks(time);
                let e: Effects = self.dimmer.begin_transition(level, ticks, with_on_off, now);
                (e, Ok(()))
            },
            Request::Move { up, rate, .. } => {
                let speed: u8 = match rate {
                    Some(v) => v,
                    None => match self.settings.default_move_rate {
                        Some(v) => v,
                        None => 0,
                    },
                };
                let e: Effects = self.dimmer.begin_move(up, speed, with_on_off, now);
                (e, Ok(()))
            },
            Request::Step { up, size, time, .. } => {
                let (to, ticks): (u8, u32) = self.dimmer.step_goal(up, size, self.transition_ticks(time));
                let e: Effects = self.dimmer.begin_transition(to, ticks, with_on_off, now);
                (e, Ok(()))
            },
            Request::Stop { .. } => {
                self.dimmer.stop();
                (none, Ok(()))
            },
            Request::Frequency(frequency) => {
                if tunable {
                    self.settings.frequency = frequency;
                    (none, Ok(()))
                } else {
                    (none, Err(Status::ConstraintError))
                }
            },
        }
    }

    /// The switch changed, on a device that couples them.
    pub fn couple(&mut self, on: bool, stored: Option<u8>, now: Instant) -> (e: Effects)
        ensures
            (final(self).dimmer, e) == coupled(*old(self), on, stored, now),
            final(self).settings == old(self).settings,
    {
        if on {
            let ticks: u16 = match self.settings.on_transition_time {
                Some(t) => t,
                None => self.settings.on_off_transition_time,
            };
            let target: u8 = match self.settings.on_level {
                Some(level) => level,
                None => match stored {
                    Some(level) => level,
                    None => self.dimmer.max,
                },
            };
            self.dimmer.level = Some(self.dimmer.min);
            self.dimmer.begin_transition(target, ticks as u32, false, now)
        } else {
            let ticks: u16 = match self.settings.off_transition_time {
                Some(t) => t,
                None => self.settings.on_off_transition_time,
            };
            self.dimmer.begin_transition(self.dimmer.min, ticks as u32, false, now)
        }
    }

    /// Starts the device.
    pub fn start(&mut self, previous: Option<u8>)
        ensures
            *final(self) == (State {
                dimmer: started(old(self).dimmer, old(self).settings.start_up_current_level, previous),
                ..*old(self)
            }),
    {
        let (min, max): (u8, u8) = (self.dimmer.min, self.dimmer.max);
        self.dimmer.level = match self.settings.start_up_current_level {
            Some(v) => Some(
                if v == 0 {
                    min
                } else {
                    clamp_level(v, min, max)
                },
            ),
            None => match previous {
                Some(v) => Some(clamp_level(v, min, max)),
                None => None,
            },
        };
    }

    /// Sets an attribute to a value.
    pub fn set(&mut self, id: AttributeId, v: Value) -> (r: Result<(), Status>)
        ensures
            match set(*old(self), id, v) {
                Ok(settings) => r == Ok::<(), Status>(()) && *final(self) == (State { settings, ..*old(self) }),
                Err(status) => r == Err::<(), Status>(status) && *final(self) == *old(self),
            },
    {
        match id {
            OPTIONS => match byte_in(v) {
                Err(status) => Err(status),
                Ok(None) => Err(Status::InvalidDataType),
                Ok(Some(options)) => {
                    if options > ALL_OPTIONS {
                        return Err(Status::ConstraintError);
                    }
                    self.settings.options = options;
                    Ok(())
                },
            },
            ON_OFF_TRANSITION_TIME => match short_in(v) {
                Err(status) => Err(status),
                Ok(None) => Err(Status::InvalidDataType),
                Ok(Some(time)) => {
                    self.settings.on_off_transition_time = time;
                    Ok(())
                },
            },
            ON_LEVEL => match byte_in(v) {
                Err(status) => Err(status),
                Ok(on_level) => {
                    if let Some(level) = on_level {
                        if level < self.dimmer.min || level > self.dimmer.max {
                            return Err(Status::ConstraintError);
                        }
                    }
                    self.settings.on_level = on_level;
                    Ok(())
                },
            },
            ON_TRANSITION_TIME => match short_in(v) {
                Err(status) => Err(status),
                Ok(time) => {
                    self.settings.on_transition_time = time;
                    Ok(())
                },
            },
            OFF_TRANSITION_TIME => match short_in(v) {
                Err(status) => Err(status),
                Ok(time) => {
                    self.settings.off_transition_time = time;
                    Ok(())
                },
            },
            DEFAULT_MOVE_RATE => match byte_in(v) {
                Err(status) => Err(status),
                Ok(rate) => {
                    if let Some(0) = rate {
                        return Err(Status::ConstraintError);
                    }
                    self.settings.default_move_rate = rate;
                    Ok(())
                },
            },
            START_UP_CURRENT_LEVEL => match byte_in(v) {
                Err(status) => Err(status),
                Ok(level) => {
                    self.settings.start_up_current_level = level;
                    Ok(())
                },
            },
            _ => Err(Status::UnsupportedWrite),
        }
    }
}

/// What went wrong, where something did.
pub open spec fn refusal(r: Result<(), Status>) -> Option<Status> {
    match r {
        Ok(_) => None,
        Err(status) => Some(status),
    }
}

/// The cluster's definition.
pub open spec fn defined() -> DefinitionModel {
    DefinitionModel {
        id: ID,
        revision: REVISION,
        features: 0x07,
        attributes: seq![
            conformance::reads(CURRENT_LEVEL, Conformance::Mandatory),
            conformance::reads(REMAINING_TIME, Conformance::With(LIGHTING)),
            conformance::reads(MIN_LEVEL, Conformance::Optional),
            conformance::reads(MAX_LEVEL, Conformance::Optional),
            conformance::reads(CURRENT_FREQUENCY, Conformance::With(FREQUENCY)),
            conformance::reads(MIN_FREQUENCY, Conformance::With(FREQUENCY)),
            conformance::reads(MAX_FREQUENCY, Conformance::With(FREQUENCY)),
            conformance::writes(OPTIONS, Privilege::Operate, Conformance::Mandatory),
            conformance::writes(ON_OFF_TRANSITION_TIME, Privilege::Operate, Conformance::Optional),
            conformance::writes(ON_LEVEL, Privilege::Operate, Conformance::Mandatory),
            conformance::writes(ON_TRANSITION_TIME, Privilege::Operate, Conformance::Optional),
            conformance::writes(OFF_TRANSITION_TIME, Privilege::Operate, Conformance::Optional),
            conformance::writes(DEFAULT_MOVE_RATE, Privilege::Operate, Conformance::Optional),
            conformance::writes(START_UP_CURRENT_LEVEL, Privilege::Manage, Conformance::With(LIGHTING)),
        ],
        commands: seq![
            conformance::invokes(MOVE_TO_LEVEL, Privilege::Operate, None, Conformance::Mandatory),
            conformance::invokes(MOVE, Privilege::Operate, None, Conformance::Mandatory),
            conformance::invokes(STEP, Privilege::Operate, None, Conformance::Mandatory),
            conformance::invokes(STOP, Privilege::Operate, None, Conformance::Mandatory),
            conformance::invokes(MOVE_TO_LEVEL_WITH_ON_OFF, Privilege::Operate, None, Conformance::Mandatory),
            conformance::invokes(MOVE_WITH_ON_OFF, Privilege::Operate, None, Conformance::Mandatory),
            conformance::invokes(STEP_WITH_ON_OFF, Privilege::Operate, None, Conformance::Mandatory),
            conformance::invokes(STOP_WITH_ON_OFF, Privilege::Operate, None, Conformance::Mandatory),
            conformance::invokes(MOVE_TO_CLOSEST_FREQUENCY, Privilege::Operate, None, Conformance::With(FREQUENCY)),
        ],
        generated: Seq::empty(),
        events: Seq::empty(),
    }
}

/// The cluster's definition.
pub fn definition() -> (d: Definition)
    ensures
        d@ == defined(),
{
    let d: Definition = Definition {
        id: ID,
        revision: REVISION,
        features: 0x07,
        attributes: vec![
            conformance::readable(CURRENT_LEVEL, Conformance::Mandatory),
            conformance::readable(REMAINING_TIME, Conformance::With(LIGHTING)),
            conformance::readable(MIN_LEVEL, Conformance::Optional),
            conformance::readable(MAX_LEVEL, Conformance::Optional),
            conformance::readable(CURRENT_FREQUENCY, Conformance::With(FREQUENCY)),
            conformance::readable(MIN_FREQUENCY, Conformance::With(FREQUENCY)),
            conformance::readable(MAX_FREQUENCY, Conformance::With(FREQUENCY)),
            conformance::writable(OPTIONS, Privilege::Operate, Conformance::Mandatory),
            conformance::writable(ON_OFF_TRANSITION_TIME, Privilege::Operate, Conformance::Optional),
            conformance::writable(ON_LEVEL, Privilege::Operate, Conformance::Mandatory),
            conformance::writable(ON_TRANSITION_TIME, Privilege::Operate, Conformance::Optional),
            conformance::writable(OFF_TRANSITION_TIME, Privilege::Operate, Conformance::Optional),
            conformance::writable(DEFAULT_MOVE_RATE, Privilege::Operate, Conformance::Optional),
            conformance::writable(START_UP_CURRENT_LEVEL, Privilege::Manage, Conformance::With(LIGHTING)),
        ],
        commands: vec![
            conformance::invocable(MOVE_TO_LEVEL, Privilege::Operate, None, Conformance::Mandatory),
            conformance::invocable(MOVE, Privilege::Operate, None, Conformance::Mandatory),
            conformance::invocable(STEP, Privilege::Operate, None, Conformance::Mandatory),
            conformance::invocable(STOP, Privilege::Operate, None, Conformance::Mandatory),
            conformance::invocable(MOVE_TO_LEVEL_WITH_ON_OFF, Privilege::Operate, None, Conformance::Mandatory),
            conformance::invocable(MOVE_WITH_ON_OFF, Privilege::Operate, None, Conformance::Mandatory),
            conformance::invocable(STEP_WITH_ON_OFF, Privilege::Operate, None, Conformance::Mandatory),
            conformance::invocable(STOP_WITH_ON_OFF, Privilege::Operate, None, Conformance::Mandatory),
            conformance::invocable(MOVE_TO_CLOSEST_FREQUENCY, Privilege::Operate, None, Conformance::With(FREQUENCY)),
        ],
        generated: Vec::new(),
        events: Vec::new(),
    };
    proof {
        assert(d@.attributes =~= defined().attributes);
        assert(d@.commands =~= defined().commands);
    }
    d
}

/// Everything that a product can choose.
pub fn with_all_optional() -> (o: Optional)
    ensures
        o@ == (OptionalModel {
            attributes: seq![
                MIN_LEVEL,
                MAX_LEVEL,
                ON_OFF_TRANSITION_TIME,
                ON_TRANSITION_TIME,
                OFF_TRANSITION_TIME,
                DEFAULT_MOVE_RATE,
            ],
            commands: Seq::empty(),
            events: Seq::empty(),
        }),
{
    let o: Optional = Optional {
        attributes: vec![
            MIN_LEVEL,
            MAX_LEVEL,
            ON_OFF_TRANSITION_TIME,
            ON_TRANSITION_TIME,
            OFF_TRANSITION_TIME,
            DEFAULT_MOVE_RATE,
        ],
        commands: Vec::new(),
        events: Vec::new(),
    };
    proof {
        assert(o@.attributes =~= seq![
            MIN_LEVEL,
            MAX_LEVEL,
            ON_OFF_TRANSITION_TIME,
            ON_TRANSITION_TIME,
            OFF_TRANSITION_TIME,
            DEFAULT_MOVE_RATE,
        ]);
    }
    o
}

/// The two bounds alone.
pub fn with_range_only() -> (o: Optional)
    ensures
        o@ == (OptionalModel { attributes: seq![MIN_LEVEL, MAX_LEVEL], commands: Seq::empty(), events: Seq::empty() }),
{
    let o: Optional = Optional { attributes: vec![MIN_LEVEL, MAX_LEVEL], commands: Vec::new(), events: Vec::new() };
    proof {
        assert(o@.attributes =~= seq![MIN_LEVEL, MAX_LEVEL]);
    }
    o
}

/// The levels that a device was told, once effects were carried out.
pub open spec fn shows(shown: Seq<Option<u8>>, e: Effects) -> Seq<Option<u8>> {
    match e.show {
        Some(level) => shown.push(level),
        None => shown,
    }
}

/// How a switch was switched, once effects were carried out: on before the level is shown, and off
/// after it.
pub open spec fn switches(switched: Seq<bool>, e: Effects) -> Seq<bool> {
    let on = if e.turn_on { switched.push(true) } else { switched };
    if e.turn_off { on.push(false) } else { on }
}

/// Level Control with a device and the switch on the same endpoint.
pub struct LevelControl<H: LevelControlHooks, O: OnOffState> {
    /// The device, with the frequencies that it was told to go over to.
    pub hooks: Recorded<H>,
    /// The switch.
    pub on_off: O,
    /// The features.
    pub feature_map: u32,
    /// The level and what clients can set.
    pub state: State,
    /// The least frequency.
    pub min_frequency: u16,
    /// The greatest frequency.
    pub max_frequency: u16,
}

/// What an attribute is answered with.
pub open spec fn attribute_answer(st: State, frequencies: (u16, u16), id: AttributeId, tag: Tag) -> ReadAnswer {
    let s = st.settings;
    if id == CURRENT_LEVEL {
        Ok(tlv::nullable_bytes(tag, wide8(st.dimmer.level)))
    } else if id == REMAINING_TIME {
        Ok(tlv::unsigned_bytes(tag, remaining(st.dimmer) as u64))
    } else if id == MIN_LEVEL {
        Ok(tlv::unsigned_bytes(tag, st.dimmer.min as u64))
    } else if id == MAX_LEVEL {
        Ok(tlv::unsigned_bytes(tag, st.dimmer.max as u64))
    } else if id == OPTIONS {
        Ok(tlv::unsigned_bytes(tag, s.options as u64))
    } else if id == ON_OFF_TRANSITION_TIME {
        Ok(tlv::unsigned_bytes(tag, s.on_off_transition_time as u64))
    } else if id == ON_LEVEL {
        Ok(tlv::nullable_bytes(tag, wide8(s.on_level)))
    } else if id == ON_TRANSITION_TIME {
        Ok(tlv::nullable_bytes(tag, wide16(s.on_transition_time)))
    } else if id == OFF_TRANSITION_TIME {
        Ok(tlv::nullable_bytes(tag, wide16(s.off_transition_time)))
    } else if id == DEFAULT_MOVE_RATE {
        Ok(tlv::nullable_bytes(tag, wide8(s.default_move_rate)))
    } else if id == START_UP_CURRENT_LEVEL {
        Ok(tlv::nullable_bytes(tag, wide8(s.start_up_current_level)))
    } else if id == CURRENT_FREQUENCY {
        Ok(tlv::unsigned_bytes(tag, s.frequency as u64))
    } else if id == MIN_FREQUENCY {
        Ok(tlv::unsigned_bytes(tag, frequencies.0 as u64))
    } else if id == MAX_FREQUENCY {
        Ok(tlv::unsigned_bytes(tag, frequencies.1 as u64))
    } else {
        Err(Status::UnsupportedAttribute)
    }
}

/// A number, widened.
pub open spec fn wide8(v: Option<u8>) -> Option<u64> {
    match v {
        Some(v) => Some(v as u64),
        None => None,
    }
}

/// A number, widened.
pub open spec fn wide16(v: Option<u16>) -> Option<u64> {
    match v {
        Some(v) => Some(v as u64),
        None => None,
    }
}

fn widen8(v: Option<u8>) -> (w: Option<u64>)
    ensures
        w == wide8(v),
{
    match v {
        Some(v) => Some(v as u64),
        None => None,
    }
}

fn widen16(v: Option<u16>) -> (w: Option<u64>)
    ensures
        w == wide16(v),
{
    match v {
        Some(v) => Some(v as u64),
        None => None,
    }
}

/// A cluster that nothing was set on, and whose level is not known.
pub open spec fn initial() -> State {
    State {
        dimmer: Dimmer {
            min: LIGHTING_MIN,
            max: LIGHTING_MAX,
            level: None,
            motion: Motion::Idle,
            next_tick: None,
            with_on_off_pending: false,
        },
        settings: Settings {
            options: 0,
            on_off_transition_time: 0,
            on_level: None,
            on_transition_time: None,
            off_transition_time: None,
            default_move_rate: None,
            start_up_current_level: None,
            frequency: 0,
        },
    }
}

impl<H: LevelControlHooks> LevelControl<H, NoOnOff> {
    /// A cluster on an endpoint without a switch.
    pub fn new(hooks: H, feature_map: u32) -> (c: Self)
        ensures
            c.state == initial(),
            c.hooks.product() == hooks,
            c.hooks.frequencies() == Seq::<(u16, bool)>::empty(),
            c.feature_map == feature_map,
            c.min_frequency == 0,
            c.max_frequency == 0,
    {
        LevelControl::with_on_off(hooks, NoOnOff::default(), feature_map)
    }
}

impl<H: LevelControlHooks, O: OnOffState> LevelControl<H, O> {
    /// A cluster with the switch on the same endpoint.
    pub fn with_on_off(hooks: H, on_off: O, feature_map: u32) -> (c: Self)
        ensures
            c.state == initial(),
            c.hooks.product() == hooks,
            c.hooks.frequencies() == Seq::<(u16, bool)>::empty(),
            c.on_off == on_off,
            c.feature_map == feature_map,
            c.min_frequency == 0,
            c.max_frequency == 0,
    {
        LevelControl {
            hooks: Recorded::new(hooks),
            on_off,
            feature_map,
            state: State {
                dimmer: Dimmer::new(LIGHTING_MIN, LIGHTING_MAX),
                settings: Settings {
                    options: 0,
                    on_off_transition_time: 0,
                    on_level: None,
                    on_transition_time: None,
                    off_transition_time: None,
                    default_move_rate: None,
                    start_up_current_level: None,
                    frequency: 0,
                },
            },
            min_frequency: 0,
            max_frequency: 0,
        }
    }

    /// The same between other bounds, on a device that is no light; bounds that are no range change
    /// nothing.
    pub fn with_range(self, min_level: u8, max_level: u8) -> (c: Self)
        ensures
            c == if self.feature_map & LIGHTING == 0 && min_level <= max_level {
                LevelControl {
                    state: State {
                        dimmer: Dimmer { min: min_level, max: max_level, ..self.state.dimmer },
                        ..self.state
                    },
                    ..self
                }
            } else {
                self
            },
    {
        if self.feature_map & LIGHTING == 0 && min_level <= max_level {
            let dimmer: Dimmer = Dimmer { min: min_level, max: max_level, ..self.state.dimmer };
            let state: State = State { dimmer, settings: self.state.settings };
            LevelControl { state, ..self }
        } else {
            self
        }
    }

    /// The same with a range of frequencies.
    pub fn with_frequency(self, min: u16, max: u16) -> (c: Self)
        ensures
            c == (LevelControl { min_frequency: min, max_frequency: max, ..self }),
    {
        LevelControl { min_frequency: min, max_frequency: max, ..self }
    }

    /// The description for features and for what the product chooses.
    pub fn conforming(features: u32, optional: &Optional) -> (r: Result<Conforming, ErrorCode>)
        ensures
            conformance::outcome(r) == conformance::conform(defined(), features, optional@),
    {
        Conforming::new(&definition(), features, optional)
    }

    /// Whether nothing but the level and what clients can set differs.
    pub open spec fn same_device(&self, other: &Self) -> bool {
        &&& self.hooks == other.hooks
        &&& self.on_off == other.on_off
        &&& self.same_bounds(other)
    }

    /// Whether the features and the frequencies are the same.
    pub open spec fn same_bounds(&self, other: &Self) -> bool {
        &&& self.feature_map == other.feature_map
        &&& self.min_frequency == other.min_frequency
        &&& self.max_frequency == other.max_frequency
    }

    /// Whether it is another whose device and switch were told what they have to do, in order and
    /// once each, and stay as they are where that is nothing.
    pub open spec fn has_done(&self, before: &Self, e: Effects) -> bool {
        &&& self.same_bounds(before)
        &&& self.hooks.shown() == shows(before.hooks.shown(), e)
        &&& self.hooks.frequencies() == before.hooks.frequencies()
        &&& self.on_off.switched() == switches(before.on_off.switched(), e)
        &&& e.show is None ==> self.hooks == before.hooks
        &&& !e.turn_on && !e.turn_off ==> self.on_off == before.on_off
    }

    /// Whether it is another whose device was told one frequency more, and nothing else.
    pub open spec fn has_tuned(&self, before: &Self, frequency: u16, tunable: bool) -> bool {
        &&& self.same_bounds(before)
        &&& self.hooks.tuned(&before.hooks, frequency, tunable)
        &&& self.on_off == before.on_off
    }

    /// Whether the switch, asked whether it is there and on, and the device, asked for the frequency
    /// that a command names, may say this.
    pub open spec fn says(&self, command: CommandId, data: Option<Seq<u8>>, present: bool, on: bool, tunable: bool) -> bool {
        &&& call_ensures(O::present, (&self.on_off,), present)
        &&& call_ensures(O::is_on, (&self.on_off,), on)
        &&& decoded(command, data) matches Ok(Request::Frequency(frequency)) ==> call_ensures(
            H::frequency,
            (&self.hooks.product(), frequency),
            tunable,
        )
    }

    fn carry_out(&mut self, e: &Effects)
        ensures
            final(self).has_done(old(self), *e),
            final(self).state == old(self).state,
    {
        if e.turn_on {
            self.on_off.set_from_level(true);
        }
        if let Some(level) = e.show {
            self.hooks.level(level);
        }
        if e.turn_off {
            self.on_off.set_from_level(false);
        }
    }

    /// Starts the device, which may remember its level.
    pub fn start(&mut self, previous: Option<u8>)
        ensures
            final(self).has_done(old(self), Effects { show: Some(final(self).state.dimmer.level), ..nothing() }),
            final(self).state == (State {
                dimmer: started(old(self).state.dimmer, old(self).state.settings.start_up_current_level, previous),
                ..old(self).state
            }),
    {
        self.state.start(previous);
        self.hooks.level(self.state.dimmer.level);
    }

    /// `CurrentLevel`.
    pub fn level(&self) -> (l: Option<u8>)
        ensures
            l == self.state.dimmer.level,
    {
        self.state.dimmer.level
    }

    /// `RemainingTime`.
    pub fn remaining_time(&self) -> (t: u16)
        ensures
            t == remaining(self.state.dimmer),
    {
        self.state.dimmer.remaining_time()
    }

    /// `MinLevel`.
    pub fn min_level(&self) -> (l: u8)
        ensures
            l == self.state.dimmer.min,
    {
        self.state.dimmer.min
    }

    /// `MaxLevel`.
    pub fn max_level(&self) -> (l: u8)
        ensures
            l == self.state.dimmer.max,
    {
        self.state.dimmer.max
    }

    /// `Options`.
    pub fn options(&self) -> (o: u8)
        ensures
            o == self.state.settings.options,
    {
        self.state.settings.options
    }

    /// `OnLevel`.
    pub fn on_level(&self) -> (l: Option<u8>)
        ensures
            l == self.state.settings.on_level,
    {
        self.state.settings.on_level
    }

    /// Sets `OnLevel`.
    pub fn set_on_level(&mut self, level: Option<u8>)
        ensures
            final(self).same_device(old(self)),
            final(self).state == (State {
                settings: Settings { on_level: level, ..old(self).state.settings },
                ..old(self).state
            }),
    {
        self.state.settings.on_level = level;
    }

    /// Sets `StartUpCurrentLevel`.
    pub fn set_start_up_level(&mut self, level: Option<u8>)
        ensures
            final(self).same_device(old(self)),
            final(self).state == (State {
                settings: Settings { start_up_current_level: level, ..old(self).state.settings },
                ..old(self).state
            }),
    {
        self.state.settings.start_up_current_level = level;
    }

    /// When there is something to poll for.
    pub fn wake_at(&self) -> (t: Option<Instant>)
        ensures
            t == self.state.dimmer.next_tick,
    {
        self.state.dimmer.next_tick
    }

    /// Goes on by what is due.
    pub fn poll(&mut self, now: Instant)
        ensures
            final(self).has_done(old(self), polled(old(self).state.dimmer, now).1),
            final(self).state == (State { dimmer: polled(old(self).state.dimmer, now).0, ..old(self).state }),
    {
        let e: Effects = self.state.dimmer.poll(now);
        self.carry_out(&e);
    }

    /// The switch changed, on a device that couples them.
    pub fn on_off_changed(&mut self, on: bool, stored: Option<u8>, now: Instant)
        ensures
            final(self).has_done(old(self), coupled(old(self).state, on, stored, now).1),
            final(self).state == (State { dimmer: coupled(old(self).state, on, stored, now).0, ..old(self).state }),
    {
        let e: Effects = self.state.couple(on, stored, now);
        self.carry_out(&e);
    }
}

impl<H: LevelControlHooks, O: OnOffState> Cluster for LevelControl<H, O> {
    const ID: ClusterId = ID;
}

impl<H: LevelControlHooks, O: OnOffState> ClusterHandler for LevelControl<H, O> {
    open spec fn answers(&self, resolved: Resolved, ctx: InteractionContext, tag: Tag, a: ReadAnswer) -> bool {
        a == attribute_answer(self.state, (self.min_frequency, self.max_frequency), resolved.attribute, tag)
    }

    open spec fn writes(
        before: &Self,
        after: &Self,
        resolved: Resolved,
        data: Seq<u8>,
        op: WriteOp,
        ctx: InteractionContext,
        r: Result<(), Status>,
    ) -> bool {
        &&& after.same_device(before)
        &&& match written(before.state, resolved.attribute, data) {
            Ok(settings) => r == Ok::<(), Status>(()) && after.state == (State { settings, ..before.state }),
            Err(status) => r == Err::<(), Status>(status) && after.state == before.state,
        }
    }

    open spec fn invokes(
        before: &Self,
        after: &Self,
        resolved: ResolvedCommand,
        fields: Option<Seq<u8>>,
        ctx: InteractionContext,
        tag: Tag,
        a: InvokeAnswer,
    ) -> bool {
        &&& exists|present: bool, on: bool, tunable: bool|
            {
                let x = #[trigger] commanded(before.state, resolved.command, fields, present, on, tunable, ctx.now);
                &&& before.says(resolved.command, fields, present, on, tunable)
                &&& after.state == x.0
                &&& match decoded(resolved.command, fields) {
                    Ok(Request::Frequency(frequency)) => after.has_tuned(before, frequency, tunable),
                    _ => after.has_done(before, x.1),
                }
                &&& a == x.2
            }
    }

    open spec fn outlives(before: &Self, after: &Self, event: Lifecycle) -> bool {
        *after == *before
    }

    open spec fn unfit(&self, resolved: ResolvedCommand) -> Status {
        Status::Failure
    }

    fn answer(&self, resolved: &Resolved, ctx: &InteractionContext, tag: Tag) -> (a: Result<Vec<u8>, Status>) {
        let s: &Settings = &self.state.settings;
        let d: &Dimmer = &self.state.dimmer;
        let mut out: Vec<u8> = Vec::new();
        match resolved.attribute {
            CURRENT_LEVEL => tlv::put_nullable(&mut out, tag, widen8(d.level)),
            REMAINING_TIME => tlv::put_unsigned(&mut out, tag, d.remaining_time() as u64),
            MIN_LEVEL => tlv::put_unsigned(&mut out, tag, d.min as u64),
            MAX_LEVEL => tlv::put_unsigned(&mut out, tag, d.max as u64),
            OPTIONS => tlv::put_unsigned(&mut out, tag, s.options as u64),
            ON_OFF_TRANSITION_TIME => tlv::put_unsigned(&mut out, tag, s.on_off_transition_time as u64),
            ON_LEVEL => tlv::put_nullable(&mut out, tag, widen8(s.on_level)),
            ON_TRANSITION_TIME => tlv::put_nullable(&mut out, tag, widen16(s.on_transition_time)),
            OFF_TRANSITION_TIME => tlv::put_nullable(&mut out, tag, widen16(s.off_transition_time)),
            DEFAULT_MOVE_RATE => tlv::put_nullable(&mut out, tag, widen8(s.default_move_rate)),
            START_UP_CURRENT_LEVEL => tlv::put_nullable(&mut out, tag, widen8(s.start_up_current_level)),
            CURRENT_FREQUENCY => tlv::put_unsigned(&mut out, tag, s.frequency as u64),
            MIN_FREQUENCY => tlv::put_unsigned(&mut out, tag, self.min_frequency as u64),
            MAX_FREQUENCY => tlv::put_unsigned(&mut out, tag, self.max_frequency as u64),
            _ => return Err(Status::UnsupportedAttribute),
        }
        proof {
            let expected = attribute_answer(
                self.state,
                (self.min_frequency, self.max_frequency),
                resolved.attribute,
                tag,
            );
            assert(out@ =~= expected->Ok_0);
        }
        Ok(out)
    }

    fn write(&mut self, resolved: &Resolved, data: &[u8], op: WriteOp, ctx: &InteractionContext) -> (r: Result<(), Status>) {
        match tlv::read_element(data, 0) {
            None => Err(Status::InvalidAction),
            Some((e, _)) => self.state.set(resolved.attribute, e.value),
        }
    }

    fn perform(
        &mut self,
        resolved: &ResolvedCommand,
        fields: Option<&[u8]>,
        ctx: &InteractionContext,
        tag: Tag,
    ) -> (a: Result<Reply, StatusIb>) {
        let ghost before = self.state;
        let present: bool = self.on_off.present();
        let on: bool = self.on_off.is_on();
        match decode(resolved.command, fields) {
            Err(status) => {
                proof {
                    let seen = commanded(before, resolved.command, im::octets(fields), present, on, false, ctx.now);
                }
                im::refuse(status)
            },
            Ok(r) => {
                let tunable: bool = match r {
                    Request::Frequency(frequency) => self.hooks.frequency(frequency),
                    _ => false,
                };
                let (e, done): (Effects, Result<(), Status>) = self.state.request(
                    &r,
                    is_linked(resolved.command),
                    present,
                    on,
                    tunable,
                    ctx.now,
                );
                self.carry_out(&e);
                proof {
                    let seen = commanded(before, resolved.command, im::octets(fields), present, on, tunable, ctx.now);
                }
                match done {
                    Ok(_) => im::no_response(),
                    Err(status) => im::refuse(status),
                }
            },
        }
    }

    fn on_lifecycle(&mut self, event: Lifecycle) {
    }

    fn unfit_status(&self, resolved: &ResolvedCommand) -> (s: Status) {
        Status::Failure
    }
}

/// A command decides the options that it masks, and the attribute decides the others.
pub proof fn law_a_mask_chooses_for_one_command(options: u8, mask: u8, over: u8, bit: u8)
    ensures
        mask & bit == 0 ==> effective(options, mask, over) & bit == options & bit,
        mask & bit == bit ==> effective(options, mask, over) & bit == over & bit,
{
    assert(mask & bit == 0 ==> ((options & !mask) | (over & mask)) & bit == options & bit) by (bit_vector);
    assert(mask & bit == bit ==> ((options & !mask) | (over & mask)) & bit == over & bit) by (bit_vector);
}

/// Where the switch is off and the options do not say otherwise, a command without On/Off changes
/// nothing and shows nothing, and is answered with success; a command with On/Off is never held back,
/// and neither is any where there is no switch.
pub proof fn law_a_switch_that_is_off_holds_back(st: State, r: Request, on: bool, tunable: bool, now: Instant)
    requires
        !(r is Frequency),
    ensures
        effective(st.settings.options, masks(r).0, masks(r).1) & EXECUTE_IF_OFF == 0 ==> requested(
            st,
            r,
            false,
            true,
            false,
            tunable,
            now,
        ) == (st, nothing(), None::<Status>),
        !held_back(st, r, true, true, on),
        !held_back(st, r, false, false, on),
{
}

/// Whether a level keeps to its bounds, and a motion between them.
pub open spec fn within(d: Dimmer) -> bool {
    &&& d.min <= d.max
    &&& d.level matches Some(l) ==> d.min <= l <= d.max
    &&& match d.motion {
        Motion::Transition { from, to, ticks, elapsed, .. } => d.min <= from <= d.max && d.min <= to <= d.max && elapsed < ticks
            && ticks <= 0x7F_FFFF,
        _ => true,
    }
}

/// A transition is never before where it comes from nor beyond where it goes to.
pub proof fn law_a_transition_stays_on_its_way(from: u8, to: u8, ticks: u32, elapsed: u32)
    requires
        elapsed < ticks <= 0x7F_FFFF,
    ensures
        from <= to ==> from <= progress(from, to, ticks, elapsed) <= to,
        to <= from ==> to <= progress(from, to, ticks, elapsed) <= from,
{
    let far: int = if to >= from { to - from } else { from - to };
    assert(far * elapsed <= 255 * 0x7F_FFFF) by (nonlinear_arith)
        requires
            0 <= far <= 255,
            0 <= elapsed <= 0x7F_FFFF,
    ;
    assert(0 <= (far * elapsed) / (ticks as int) <= far) by (nonlinear_arith)
        requires
            0 <= far,
            0 <= elapsed < ticks,
    ;
}

/// However long it runs, a level that keeps to its bounds goes on to.
pub proof fn law_a_level_keeps_to_its_bounds(d: Dimmer, due: Instant, now: Instant, most: nat)
    requires
        within(d),
    ensures
        within(run(d, due, now, most).0),
    decreases most,
{
    if most > 0 && now.micros >= due.micros && !(d.motion is Idle) {
        law_a_tick_keeps_to_the_bounds(d);
        law_a_level_keeps_to_its_bounds(advanced(d), tick_after(due), now, (most - 1) as nat);
    }
}

/// One tick leaves a level within its bounds.
pub proof fn law_a_tick_keeps_to_the_bounds(d: Dimmer)
    requires
        within(d),
    ensures
        within(advanced(d)),
{
    if let Motion::Transition { from, to, ticks, elapsed, .. } = d.motion {
        if elapsed + 1 < ticks {
            law_a_transition_stays_on_its_way(from, to, ticks, (elapsed + 1) as u32);
        }
    }
}

/// Whatever is asked of it, a level keeps to its bounds: a level beyond them is clipped, not refused.
pub proof fn law_a_request_keeps_to_the_bounds(
    st: State,
    r: Request,
    with_on_off: bool,
    present: bool,
    on: bool,
    tunable: bool,
    now: Instant,
)
    requires
        within(st.dimmer),
    ensures
        within(requested(st, r, with_on_off, present, on, tunable, now).0.dimmer),
{
    if let Request::Step { up, size, time, .. } = r {
        let (to, ticks) = step_goal(st.dimmer, up, size, ticks_of(st.settings, time));
        let time = ticks_of(st.settings, time);
        let from = level_or_min(st.dimmer);
        let actual: int = if to >= from { to - from } else { from - to };
        if size > 0 {
            assert(0 <= time * actual <= 0xFFFF * 255) by (nonlinear_arith)
                requires
                    0 <= time <= 0xFFFF,
                    0 <= actual <= 255,
            ;
            assert(actual <= size);
            assert(0 <= (time * actual) / (size as int) <= time) by (nonlinear_arith)
                requires
                    0 <= actual <= size,
                    size > 0,
                    0 <= time,
            ;
        }
    }
}

/// A transition arrives when it was to, however late it is polled: once its time is over, the level
/// is the one that it went to.
pub proof fn law_a_late_poll_arrives(d: Dimmer, due: Instant, now: Instant, most: nat)
    requires
        d.motion is Transition,
        d.motion->Transition_elapsed < d.motion->Transition_ticks,
        d.motion->Transition_ticks - d.motion->Transition_elapsed <= most,
        due.micros + (d.motion->Transition_ticks - d.motion->Transition_elapsed) * 100_000 <= u64::MAX,
        now.micros >= due.micros + (d.motion->Transition_ticks - d.motion->Transition_elapsed - 1) * 100_000,
    ensures
        run(d, due, now, most).0.motion is Idle,
        run(d, due, now, most).0.level == Some(d.motion->to),
    decreases most,
{
    let next = advanced(d);
    let left = d.motion->Transition_ticks - d.motion->Transition_elapsed;
    assert(now.micros >= due.micros) by (nonlinear_arith)
        requires
            left >= 1,
            now.micros >= due.micros + (left - 1) * 100_000,
    ;
    if left > 1 {
        assert(due.micros + 100_000 <= u64::MAX) by (nonlinear_arith)
            requires
                left > 1,
                due.micros + left * 100_000 <= u64::MAX,
        ;
        assert(next.motion is Transition);
        law_a_late_poll_arrives(next, tick_after(due), now, (most - 1) as nat);
    } else {
        assert(next.motion is Idle);
        assert(run(next, tick_after(due), now, (most - 1) as nat).0 == next);
    }
}

/// However slow, a level that moves loses nothing: in one tick ten times the level and what it has
/// not gone yet grow by the rate, unless it reaches its bound.
pub proof fn law_a_slow_move_still_moves(d: Dimmer, l: u8)
    requires
        d.level == Some(l),
        d.motion matches Motion::Move { up, rate, fraction, .. } && up && fraction < 10 && l + (fraction + rate) / 10 < d.max,
    ensures
        ({
            let next = advanced(d);
            &&& next.motion is Move
            &&& next.motion->Move_fraction < 10
            &&& next.level matches Some(n) && n * 10 + next.motion->Move_fraction == l * 10 + d.motion->Move_fraction
                + d.motion->Move_rate
        }),
{
}

/// Stopping leaves the level where it is, and the switch alone.
pub proof fn law_stopping_leaves_the_level(
    st: State,
    mask: u8,
    over: u8,
    with_on_off: bool,
    present: bool,
    on: bool,
    tunable: bool,
    now: Instant,
)
    ensures
        ({
            let (after, e, refused) = requested(
                st,
                Request::Stop { mask, over },
                with_on_off,
                present,
                on,
                tunable,
                now,
            );
            after.dimmer.level == st.dimmer.level && e == nothing() && refused is None
        }),
{
}

/// The switch follows the level for commands with On/Off alone: it is switched on before the level
/// rises above its minimum, and off when the level has come down to it.
pub proof fn law_the_switch_follows_linked_commands(d: Dimmer, target: int, ticks: u32, with_on_off: bool, now: Instant)
    requires
        d.min <= d.max,
    ensures
        ({
            let (after, e) = transitioned(d, target, ticks, with_on_off, now);
            &&& e.turn_on == (with_on_off && clamped(target, d.min, d.max) > d.min)
            &&& e.turn_off ==> with_on_off && after.level == Some(d.min)
            &&& !with_on_off ==> !e.turn_on && !e.turn_off
            &&& with_on_off && after.motion is Idle && after.level == Some(d.min) ==> e.turn_off
        }),
{
}

/// A poll that ends a motion switches off exactly where a command with On/Off brought the level down
/// to its minimum.
pub proof fn law_the_switch_goes_off_at_the_end(d: Dimmer, now: Instant)
    ensures
        ({
            let (after, e) = polled(d, now);
            &&& !e.turn_on
            &&& e.turn_off ==> after.level == Some(after.min) && after.motion is Idle && !after.with_on_off_pending
        }),
{
}

/// A device starts with the level that is set, with its least where that is zero, or with the one
/// that it remembers; and always within its bounds.
pub proof fn law_starting_keeps_to_the_bounds(d: Dimmer, start_up: Option<u8>, previous: Option<u8>)
    requires
        d.min <= d.max,
    ensures
        ({
            let l = started(d, start_up, previous).level;
            &&& l matches Some(l) ==> d.min <= l <= d.max
            &&& (l is None) == (start_up is None && previous is None)
            &&& start_up == Some(0u8) ==> l == Some(d.min)
        }),
{
}

/// A level between two bounds that is as near to a number as can be.
pub open spec fn nearest(v: int, min: u8, max: u8) -> int {
    if v < min {
        min as int
    } else if v > max {
        max as int
    } else {
        v
    }
}

/// Whether a command is carried out: one that works together with the switch always is, and another where there is no
/// switch, where it is on, or where the option says so that counts for it, which is its own where it masks it.
pub open spec fn heard(linked: bool, present: bool, on: bool, options: u8, mask: u8, over: u8) -> bool {
    linked || !present || on || (if mask & 1 != 0 { over & 1 != 0 } else { options & 1 != 0 })
}

proof fn lemma_heard(linked: bool, present: bool, on: bool, options: u8, mask: u8, over: u8)
    ensures
        heard(linked, present, on, options, mask, over) == !(!linked && blocked(present, on, effective(options, mask, over))),
{
    assert((((options & !mask) | (over & mask)) & 1 != 0) == (if mask & 1 != 0 { over & 1 != 0 } else { options & 1 != 0 }))
        by (bit_vector);
}

/// Whether a device goes to a level in a time: at once where there is none or it is there, and then it shows it; else
/// in that many ticks, of which the first is a tenth of a second from now.
pub open spec fn goes_to<H: LevelControlHooks, O: OnOffState>(
    before: LevelControl<H, O>,
    after: LevelControl<H, O>,
    goal: int,
    ticks: int,
    now: Instant,
) -> bool {
    let d = before.state.dimmer;
    let from = match d.level {
        Some(level) => level as int,
        None => d.min as int,
    };
    &&& after.state.settings == before.state.settings
    &&& after.state.dimmer.min == d.min && after.state.dimmer.max == d.max
    &&& if ticks == 0 || from == goal {
        &&& after.state.dimmer.level matches Some(level) && level == goal
        &&& after.state.dimmer.motion is Idle
        &&& after.state.dimmer.next_tick is None
        &&& after.hooks.shown() == before.hooks.shown().push(Some(goal as u8))
    } else {
        &&& after.state.dimmer.level == d.level
        &&& after.state.dimmer.motion matches Motion::Transition { from: f, to, ticks: t, elapsed, .. } && f == from && to == goal
            && t == ticks && elapsed == 0
        &&& now.micros + 100_000 <= u64::MAX ==> (after.state.dimmer.next_tick matches Some(t) && t.micros == now.micros + 100_000)
        &&& after.hooks.shown() == before.hooks.shown().push(d.level)
    }
}

/// Whether nothing changed and nothing was told.
pub open spec fn untouched<H: LevelControlHooks, O: OnOffState>(before: LevelControl<H, O>, after: LevelControl<H, O>) -> bool {
    after.state == before.state && after.hooks == before.hooks && after.on_off == before.on_off
}

/// `MoveToLevel`, with On/Off or without, takes the level to the one that it names or to the bound that is nearest, in
/// the time that it names or, without one, in the time that is set; a command that is not carried out changes nothing
/// and is answered alike. With On/Off a level above the least switches on first.
pub proof fn law_a_level_is_gone_to<H: LevelControlHooks, O: OnOffState>(
    before: LevelControl<H, O>,
    after: LevelControl<H, O>,
    resolved: ResolvedCommand,
    b: Seq<u8>,
    items: Seq<tlv::Element>,
    level: u8,
    mask: u8,
    over: u8,
    ctx: InteractionContext,
    tag: Tag,
    a: InvokeAnswer,
)
    requires
        LevelControl::invokes(&before, &after, resolved, Some(b), ctx, tag, a),
        resolved.command == 0x00 || resolved.command == 0x04,
        fields::decode(
            b,
            seq![
                Field(0, Kind::U8, Need::Required),
                Field(1, Kind::U16, Need::Nullable),
                Field(2, Kind::Enum(3), Need::Required),
                Field(3, Kind::Enum(3), Need::Required),
            ],
        ) == Ok::<Seq<tlv::Element>, Status>(items),
        fields::num(items, 0) == Some(level as u64),
        fields::num(items, 2) == Some(mask as u64),
        fields::num(items, 3) == Some(over as u64),
    ensures
        a == im::done(),
        exists|present: bool, on: bool|
            {
                let goal = nearest(level as int, before.state.dimmer.min, before.state.dimmer.max);
                let ticks = match fields::num16(items, 1) {
                    Some(t) => t as int,
                    None => before.state.settings.on_off_transition_time as int,
                };
                let linked = resolved.command == 0x04;
                &&& #[trigger] call_ensures(O::present, (&before.on_off,), present)
                &&& #[trigger] call_ensures(O::is_on, (&before.on_off,), on)
                &&& if heard(linked, present, on, before.state.settings.options, mask, over) {
                    &&& goes_to(before, after, goal, ticks, ctx.now)
                    &&& linked && goal > before.state.dimmer.min ==> after.on_off.switched() == before.on_off.switched().push(true)
                    &&& !linked ==> after.on_off == before.on_off
                } else {
                    untouched(before, after)
                }
            },
{
    assert(move_to_schema() =~= seq![
        Field(0, Kind::U8, Need::Required),
        Field(1, Kind::U16, Need::Nullable),
        Field(2, Kind::Enum(3), Need::Required),
        Field(3, Kind::Enum(3), Need::Required),
    ]);
    assert forall|linked: bool, present: bool, on: bool| #[trigger]
        heard(linked, present, on, before.state.settings.options, mask, over) == !(!linked && blocked(
            present,
            on,
            effective(before.state.settings.options, mask, over),
        )) by {
        lemma_heard(linked, present, on, before.state.settings.options, mask, over);
    }
}

/// `Step`, with On/Off or without, takes the level as far up or down as it says, but no further than a bound, in the
/// time that it names or that is set, and in less where a bound cuts the way short; a step of nothing is an invalid
/// command and changes nothing.
pub proof fn law_a_step_is_taken<H: LevelControlHooks, O: OnOffState>(
    before: LevelControl<H, O>,
    after: LevelControl<H, O>,
    resolved: ResolvedCommand,
    b: Seq<u8>,
    items: Seq<tlv::Element>,
    mode: u8,
    size: u8,
    mask: u8,
    over: u8,
    ctx: InteractionContext,
    tag: Tag,
    a: InvokeAnswer,
)
    requires
        LevelControl::invokes(&before, &after, resolved, Some(b), ctx, tag, a),
        resolved.command == 0x02 || resolved.command == 0x06,
        fields::decode(
            b,
            seq![
                Field(0, Kind::Enum(1), Need::Required),
                Field(1, Kind::U8, Need::Required),
                Field(2, Kind::U16, Need::Nullable),
                Field(3, Kind::Enum(3), Need::Required),
                Field(4, Kind::Enum(3), Need::Required),
            ],
        ) == Ok::<Seq<tlv::Element>, Status>(items),
        fields::num(items, 0) == Some(mode as u64),
        fields::num(items, 1) == Some(size as u64),
        fields::num(items, 3) == Some(mask as u64),
        fields::num(items, 4) == Some(over as u64),
        before.state.dimmer.min <= before.state.dimmer.max,
    ensures
        size == 0 ==> a == im::refused(Status::InvalidCommand) && untouched(before, after),
        size > 0 ==> a == im::done() && exists|present: bool, on: bool|
            {
                let d = before.state.dimmer;
                let from = match d.level {
                    Some(level) => level as int,
                    None => d.min as int,
                };
                let goal = nearest(if mode == 0 { from + size } else { from - size }, d.min, d.max);
                let way = if goal >= from { goal - from } else { from - goal };
                let time = match fields::num16(items, 2) {
                    Some(t) => t as int,
                    None => before.state.settings.on_off_transition_time as int,
                };
                &&& #[trigger] call_ensures(O::present, (&before.on_off,), present)
                &&& #[trigger] call_ensures(O::is_on, (&before.on_off,), on)
                &&& if heard(resolved.command == 0x06, present, on, before.state.settings.options, mask, over) {
                    goes_to(before, after, goal, time * way / (size as int), ctx.now)
                } else {
                    untouched(before, after)
                }
            },
{
    if size > 0 {
        let d = before.state.dimmer;
        let from = match d.level {
            Some(level) => level as int,
            None => d.min as int,
        };
        let goal = nearest(if mode == 0 { from + size } else { from - size }, d.min, d.max);
        let way = if goal >= from { goal - from } else { from - goal };
        let time = match fields::num16(items, 2) {
            Some(t) => t as int,
            None => before.state.settings.on_off_transition_time as int,
        };
        assert(0 <= time * way / (size as int) <= 0xFFFF * 255) by (nonlinear_arith)
            requires
                0 <= time <= 0xFFFF,
                0 <= way <= 255,
                1 <= size,
        ;
    }
    assert(step_schema() =~= seq![
        Field(0, Kind::Enum(1), Need::Required),
        Field(1, Kind::U8, Need::Required),
        Field(2, Kind::U16, Need::Nullable),
        Field(3, Kind::Enum(3), Need::Required),
        Field(4, Kind::Enum(3), Need::Required),
    ]);
    assert forall|linked: bool, present: bool, on: bool| #[trigger]
        heard(linked, present, on, before.state.settings.options, mask, over) == !(!linked && blocked(
            present,
            on,
            effective(before.state.settings.options, mask, over),
        )) by {
        lemma_heard(linked, present, on, before.state.settings.options, mask, over);
    }
}

/// `Move`, with On/Off or without, sets the level going up or down at the rate that it names or, without one, at the one
/// that is set, from the next tenth of a second on; without either it goes to the bound at once. A rate of nothing is an
/// invalid command.
pub proof fn law_a_move_is_started<H: LevelControlHooks, O: OnOffState>(
    before: LevelControl<H, O>,
    after: LevelControl<H, O>,
    resolved: ResolvedCommand,
    b: Seq<u8>,
    items: Seq<tlv::Element>,
    mode: u8,
    mask: u8,
    over: u8,
    ctx: InteractionContext,
    tag: Tag,
    a: InvokeAnswer,
)
    requires
        LevelControl::invokes(&before, &after, resolved, Some(b), ctx, tag, a),
        resolved.command == 0x01 || resolved.command == 0x05,
        fields::decode(
            b,
            seq![
                Field(0, Kind::Enum(1), Need::Required),
                Field(1, Kind::U8, Need::Nullable),
                Field(2, Kind::Enum(3), Need::Required),
                Field(3, Kind::Enum(3), Need::Required),
            ],
        ) == Ok::<Seq<tlv::Element>, Status>(items),
        fields::num(items, 0) == Some(mode as u64),
        fields::num(items, 2) == Some(mask as u64),
        fields::num(items, 3) == Some(over as u64),
        before.state.dimmer.min <= before.state.dimmer.max,
    ensures
        fields::num8(items, 1) == Some(0u8) ==> a == im::refused(Status::InvalidCommand) && untouched(before, after),
        fields::num8(items, 1) != Some(0u8) ==> a == im::done() && exists|present: bool, on: bool|
            {
                let rate = match (fields::num8(items, 1), before.state.settings.default_move_rate) {
                    (Some(v), _) => v,
                    (None, Some(v)) => v,
                    (None, None) => 0,
                };
                let d = before.state.dimmer;
                let linked = resolved.command == 0x05;
                &&& #[trigger] call_ensures(O::present, (&before.on_off,), present)
                &&& #[trigger] call_ensures(O::is_on, (&before.on_off,), on)
                &&& if !heard(linked, present, on, before.state.settings.options, mask, over) {
                    untouched(before, after)
                } else if rate == 0 {
                    goes_to(before, after, if mode == 0 { d.max as int } else { d.min as int }, 0, ctx.now)
                } else {
                    &&& after.state.settings == before.state.settings
                    &&& after.state.dimmer.level == d.level
                    &&& after.state.dimmer.motion matches Motion::Move { up, rate: r, fraction, .. } && up == (mode == 0) && r
                        == rate && fraction == 0
                    &&& ctx.now.micros + 100_000 <= u64::MAX ==> (after.state.dimmer.next_tick matches Some(t) && t.micros
                        == ctx.now.micros + 100_000)
                    &&& after.on_off.switched() == (if linked && mode == 0 {
                        before.on_off.switched().push(true)
                    } else {
                        before.on_off.switched()
                    })
                }
            },
{
    assert(move_schema() =~= seq![
        Field(0, Kind::Enum(1), Need::Required),
        Field(1, Kind::U8, Need::Nullable),
        Field(2, Kind::Enum(3), Need::Required),
        Field(3, Kind::Enum(3), Need::Required),
    ]);
    assert forall|linked: bool, present: bool, on: bool| #[trigger]
        heard(linked, present, on, before.state.settings.options, mask, over) == !(!linked && blocked(
            present,
            on,
            effective(before.state.settings.options, mask, over),
        )) by {
        lemma_heard(linked, present, on, before.state.settings.options, mask, over);
    }
}

/// A transition is as far on its way as its time is over, rounded down: so many units of the way as the part of the ticks
/// that are gone.
pub proof fn law_a_transition_keeps_its_pace(from: u8, to: u8, ticks: u32, elapsed: u32)
    requires
        0 < ticks <= 0xFFFF,
        elapsed <= ticks,
    ensures
        from <= to ==> progress(from, to, ticks, elapsed) == from + (to - from) * elapsed / (ticks as int),
        from >= to ==> progress(from, to, ticks, elapsed) == from - (from - to) * elapsed / (ticks as int),
{
    let way = if to >= from { to - from } else { from - to };
    assert(way * elapsed <= 255 * 0xFFFF) by (nonlinear_arith)
        requires
            0 <= way <= 255,
            0 <= elapsed <= 0xFFFF,
    ;
    assert(0 <= way * elapsed) by (nonlinear_arith)
        requires
            0 <= way,
            0 <= elapsed,
    ;
    assert(way * elapsed / (ticks as int) <= way) by (nonlinear_arith)
        requires
            0 <= way,
            0 <= elapsed <= ticks,
            0 < ticks,
    ;
    assert(0 <= way * elapsed / (ticks as int)) by (nonlinear_arith)
        requires
            0 <= way * elapsed,
            0 < ticks,
    ;
}

/// What a write of a setting that is taken over changes: that setting alone, to the number that was written, or to none
/// where null was and may be; and each write within the setting's bounds is taken over.
pub proof fn law_a_setting_is_written<H: LevelControlHooks, O: OnOffState>(
    before: LevelControl<H, O>,
    after: LevelControl<H, O>,
    resolved: Resolved,
    b: Seq<u8>,
    op: WriteOp,
    ctx: InteractionContext,
    r: Result<(), Status>,
    v: Option<u64>,
)
    requires
        LevelControl::writes(&before, &after, resolved, b, op, ctx, r),
        tlv::element_at(b, 0) matches Some((e, _)) && e.value == (match v {
            Some(n) => Value::Unsigned(n),
            None => Value::Null,
        }),
    ensures
        after.state.dimmer == before.state.dimmer,
        r is Err ==> after.state == before.state,
        ({
            let (was, is) = (before.state.settings, after.state.settings);
            let id = resolved.attribute;
            let byte = v is None || v->Some_0 <= 0xFF;
            let short = v is None || v->Some_0 <= 0xFFFF;
            let shown8 = |n: Option<u8>| n is Some == v is Some && (n matches Some(n) ==> v == Some(n as u64));
            let shown16 = |n: Option<u16>| n is Some == v is Some && (n matches Some(n) ==> v == Some(n as u64));
            &&& id == 0x000F ==> ((r is Ok) == (v matches Some(n) && n <= 3)) && (r is Ok ==> is == (Settings {
                options: v->Some_0 as u8,
                ..was
            }))
            &&& id == 0x0010 ==> ((r is Ok) == (v matches Some(n) && n <= 0xFFFF)) && (r is Ok ==> is == (Settings {
                on_off_transition_time: v->Some_0 as u16,
                ..was
            }))
            &&& id == 0x0011 ==> ((r is Ok) == (v is None || (before.state.dimmer.min <= v->Some_0 <= before.state.dimmer.max)))
                && (r is Ok ==> shown8(is.on_level) && is == (Settings { on_level: is.on_level, ..was }))
            &&& id == 0x0012 ==> ((r is Ok) == short) && (r is Ok ==> shown16(is.on_transition_time) && is == (Settings {
                on_transition_time: is.on_transition_time,
                ..was
            }))
            &&& id == 0x0013 ==> ((r is Ok) == short) && (r is Ok ==> shown16(is.off_transition_time) && is == (Settings {
                off_transition_time: is.off_transition_time,
                ..was
            }))
            &&& id == 0x0014 ==> ((r is Ok) == (byte && v != Some(0u64))) && (r is Ok ==> shown8(is.default_move_rate) && is == (
            Settings { default_move_rate: is.default_move_rate, ..was }))
            &&& id == 0x4000 ==> ((r is Ok) == byte) && (r is Ok ==> shown8(is.start_up_current_level) && is == (Settings {
                start_up_current_level: is.start_up_current_level,
                ..was
            }))
        }),
{
}

/// What a read shows: the level or that it is not known, the bounds, how long a transition still takes, and the settings as
/// they are.
pub proof fn law_the_level_is_read_as_it_is<H: LevelControlHooks, O: OnOffState>(
    c: LevelControl<H, O>,
    resolved: Resolved,
    ctx: InteractionContext,
    tag: Tag,
    a: ReadAnswer,
)
    requires
        c.answers(resolved, ctx, tag, a),
    ensures
        ({
            let (d, s, id) = (c.state.dimmer, c.state.settings, resolved.attribute);
            let null = a == Ok::<Seq<u8>, Status>(tlv::null_bytes(tag));
            let number = |v: int| a is Ok && tlv::shows_number(a->Ok_0, 0, tag, v as u64);
            &&& id == 0x0000 ==> if d.level is Some { number(d.level->Some_0 as int) } else { null }
            &&& id == 0x0001 && d.motion is Idle ==> number(0)
            &&& id == 0x0001 ==> (d.motion matches Motion::Transition { ticks, elapsed, .. } ==> (0 <= ticks - elapsed <= 0xFFFF
                ==> number(ticks - elapsed)))
            &&& id == 0x0002 ==> number(d.min as int)
            &&& id == 0x0003 ==> number(d.max as int)
            &&& id == 0x0004 ==> number(s.frequency as int)
            &&& id == 0x0005 ==> number(c.min_frequency as int)
            &&& id == 0x0006 ==> number(c.max_frequency as int)
            &&& id == 0x000F ==> number(s.options as int)
            &&& id == 0x0010 ==> number(s.on_off_transition_time as int)
            &&& id == 0x0011 ==> if s.on_level is Some { number(s.on_level->Some_0 as int) } else { null }
            &&& id == 0x0012 ==> if s.on_transition_time is Some { number(s.on_transition_time->Some_0 as int) } else { null }
            &&& id == 0x0013 ==> if s.off_transition_time is Some { number(s.off_transition_time->Some_0 as int) } else { null }
            &&& id == 0x0014 ==> if s.default_move_rate is Some { number(s.default_move_rate->Some_0 as int) } else { null }
            &&& id == 0x4000 ==> if s.start_up_current_level is Some {
                number(s.start_up_current_level->Some_0 as int)
            } else {
                null
            }
        }),
{
    assert forall|v: u64| tlv::shows_number(#[trigger] tlv::unsigned_bytes(tag, v), 0, tag, v) by {
        tlv::lemma_shows_number(tag, v);
    }
}

/// `Stop` that is carried out leaves the level where it is and ends its motion; `MoveToClosestFrequency` takes the frequency
/// that it names over exactly where the device does.
pub proof fn law_a_stop_and_a_frequency<H: LevelControlHooks, O: OnOffState>(
    before: LevelControl<H, O>,
    after: LevelControl<H, O>,
    resolved: ResolvedCommand,
    b: Seq<u8>,
    items: Seq<tlv::Element>,
    ctx: InteractionContext,
    tag: Tag,
    a: InvokeAnswer,
)
    requires
        LevelControl::invokes(&before, &after, resolved, Some(b), ctx, tag, a),
    ensures
        (resolved.command == 0x07 && fields::decode(
            b,
            seq![Field(0, Kind::Enum(3), Need::Required), Field(1, Kind::Enum(3), Need::Required)],
        ) == Ok::<Seq<tlv::Element>, Status>(items) && fields::num8(items, 0) is Some && fields::num8(items, 1) is Some) ==> {
            &&& a == im::done()
            &&& after.state.settings == before.state.settings
            &&& after.state.dimmer == (Dimmer {
                motion: Motion::Idle,
                next_tick: None,
                with_on_off_pending: false,
                ..before.state.dimmer
            })
            &&& after.on_off == before.on_off
        },
        (resolved.command == 0x08 && fields::decode(b, seq![Field(0, Kind::U16, Need::Required)]) == Ok::<
            Seq<tlv::Element>,
            Status,
        >(items) && fields::num16(items, 0) is Some) ==> {
            let asked = fields::num16(items, 0)->Some_0;
            &&& after.hooks.frequencies().len() == before.hooks.frequencies().len() + 1
            &&& after.hooks.frequencies().last().0 == asked
            &&& if after.hooks.frequencies().last().1 {
                a == im::done() && after.state == (State {
                    settings: Settings { frequency: asked, ..before.state.settings },
                    ..before.state
                })
            } else {
                a == im::refused(Status::ConstraintError) && after.state == before.state
            }
        },
{
    assert(stop_schema() =~= seq![Field(0, Kind::Enum(3), Need::Required), Field(1, Kind::Enum(3), Need::Required)]);
    assert(frequency_schema() =~= seq![Field(0, Kind::U16, Need::Required)]);
}

/// A device whose level is coupled to its switch goes, when that is switched on, from its least level to the one that is
/// set, or else to the one that was stored, or else to its greatest; and, when it is switched off, to its least: in the
/// time that is set for that, or else in the one that is set for both.
pub proof fn law_a_switch_takes_the_level_along(st: State, on: bool, stored: Option<u8>, now: Instant)
    requires
        st.dimmer.min <= st.dimmer.max,
    ensures
        ({
            let (after, e) = coupled(st, on, stored, now);
            let s = st.settings;
            let d = st.dimmer;
            let goal = if !on {
                d.min as int
            } else if s.on_level is Some {
                nearest(s.on_level->Some_0 as int, d.min, d.max)
            } else if stored is Some {
                nearest(stored->Some_0 as int, d.min, d.max)
            } else {
                d.max as int
            };
            let own = if on { s.on_transition_time } else { s.off_transition_time };
            let ticks = if own is Some { own->Some_0 as int } else { s.on_off_transition_time as int };
            let from = if on || d.level is None { d.min as int } else { d.level->Some_0 as int };
            &&& !e.turn_on && !e.turn_off
            &&& if ticks == 0 || from == goal {
                after.level == Some(goal as u8) && after.motion is Idle && e.show == Some(Some(goal as u8))
            } else {
                after.motion matches Motion::Transition { from: f, to, ticks: t, elapsed, .. } && f == from && to == goal && t == ticks
                    && elapsed == 0
            }
        }),
{
}

/// How the cluster describes itself follows from the features and from what the product chooses: each attribute, command and event
/// is there exactly where they say so, with who may read, write or invoke it, and nothing else is.
pub proof fn law_the_cluster_describes_itself(features: u32, o: conformance::OptionalModel, c: crate::dm::ClusterModel)
    requires
        conformance::conform(defined(), features, o) == Ok::<crate::dm::ClusterModel, ErrorCode>(c),
    ensures
        c.id == 0x0008,
        c.revision == 6,
        c.feature_map == features,
        features & !0x07u32 == 0,
        c.attributes.contains(conformance::shown_attribute(0x0000, None)) == (true),
        c.attributes.contains(conformance::shown_attribute(0x0001, None)) == (features & 0x02 != 0),
        c.attributes.contains(conformance::shown_attribute(0x0002, None)) == (o.attributes.contains(0x0002)),
        c.attributes.contains(conformance::shown_attribute(0x0003, None)) == (o.attributes.contains(0x0003)),
        c.attributes.contains(conformance::shown_attribute(0x0004, None)) == (features & 0x04 != 0),
        c.attributes.contains(conformance::shown_attribute(0x0005, None)) == (features & 0x04 != 0),
        c.attributes.contains(conformance::shown_attribute(0x0006, None)) == (features & 0x04 != 0),
        c.attributes.contains(conformance::shown_attribute(0x000F, Some(Privilege::Operate))) == (true),
        c.attributes.contains(conformance::shown_attribute(0x0010, Some(Privilege::Operate))) == (o.attributes.contains(0x0010)),
        c.attributes.contains(conformance::shown_attribute(0x0011, Some(Privilege::Operate))) == (true),
        c.attributes.contains(conformance::shown_attribute(0x0012, Some(Privilege::Operate))) == (o.attributes.contains(0x0012)),
        c.attributes.contains(conformance::shown_attribute(0x0013, Some(Privilege::Operate))) == (o.attributes.contains(0x0013)),
        c.attributes.contains(conformance::shown_attribute(0x0014, Some(Privilege::Operate))) == (o.attributes.contains(0x0014)),
        c.attributes.contains(conformance::shown_attribute(0x4000, Some(Privilege::Manage))) == (features & 0x02 != 0),
        c.accepted_commands.contains(conformance::shown_command(0x00, Privilege::Operate, false, false, None)) == (true),
        c.accepted_commands.contains(conformance::shown_command(0x01, Privilege::Operate, false, false, None)) == (true),
        c.accepted_commands.contains(conformance::shown_command(0x02, Privilege::Operate, false, false, None)) == (true),
        c.accepted_commands.contains(conformance::shown_command(0x03, Privilege::Operate, false, false, None)) == (true),
        c.accepted_commands.contains(conformance::shown_command(0x04, Privilege::Operate, false, false, None)) == (true),
        c.accepted_commands.contains(conformance::shown_command(0x05, Privilege::Operate, false, false, None)) == (true),
        c.accepted_commands.contains(conformance::shown_command(0x06, Privilege::Operate, false, false, None)) == (true),
        c.accepted_commands.contains(conformance::shown_command(0x07, Privilege::Operate, false, false, None)) == (true),
        c.accepted_commands.contains(conformance::shown_command(0x08, Privilege::Operate, false, false, None)) == (features & 0x04 != 0),
        c.attributes.len() <= 14,
        c.accepted_commands.len() <= 9,
        c.events.len() <= 0,
{
    let d = defined();
    assert(conformance::told_apart(d.attributes));
    assert(conformance::told_apart(d.commands));
    assert(conformance::told_apart(d.events));
    conformance::lemma_described(d.attributes, features, o.attributes, conformance::shown_attribute(0x0000, None), 0);
    conformance::lemma_described(d.attributes, features, o.attributes, conformance::shown_attribute(0x0001, None), 1);
    conformance::lemma_described(d.attributes, features, o.attributes, conformance::shown_attribute(0x0002, None), 2);
    conformance::lemma_described(d.attributes, features, o.attributes, conformance::shown_attribute(0x0003, None), 3);
    conformance::lemma_described(d.attributes, features, o.attributes, conformance::shown_attribute(0x0004, None), 4);
    conformance::lemma_described(d.attributes, features, o.attributes, conformance::shown_attribute(0x0005, None), 5);
    conformance::lemma_described(d.attributes, features, o.attributes, conformance::shown_attribute(0x0006, None), 6);
    conformance::lemma_described(d.attributes, features, o.attributes, conformance::shown_attribute(0x000F, Some(Privilege::Operate)), 7);
    conformance::lemma_described(d.attributes, features, o.attributes, conformance::shown_attribute(0x0010, Some(Privilege::Operate)), 8);
    conformance::lemma_described(d.attributes, features, o.attributes, conformance::shown_attribute(0x0011, Some(Privilege::Operate)), 9);
    conformance::lemma_described(d.attributes, features, o.attributes, conformance::shown_attribute(0x0012, Some(Privilege::Operate)), 10);
    conformance::lemma_described(d.attributes, features, o.attributes, conformance::shown_attribute(0x0013, Some(Privilege::Operate)), 11);
    conformance::lemma_described(d.attributes, features, o.attributes, conformance::shown_attribute(0x0014, Some(Privilege::Operate)), 12);
    conformance::lemma_described(d.attributes, features, o.attributes, conformance::shown_attribute(0x4000, Some(Privilege::Manage)), 13);
    conformance::lemma_described(d.commands, features, o.commands, conformance::shown_command(0x00, Privilege::Operate, false, false, None), 0);
    conformance::lemma_described(d.commands, features, o.commands, conformance::shown_command(0x01, Privilege::Operate, false, false, None), 1);
    conformance::lemma_described(d.commands, features, o.commands, conformance::shown_command(0x02, Privilege::Operate, false, false, None), 2);
    conformance::lemma_described(d.commands, features, o.commands, conformance::shown_command(0x03, Privilege::Operate, false, false, None), 3);
    conformance::lemma_described(d.commands, features, o.commands, conformance::shown_command(0x04, Privilege::Operate, false, false, None), 4);
    conformance::lemma_described(d.commands, features, o.commands, conformance::shown_command(0x05, Privilege::Operate, false, false, None), 5);
    conformance::lemma_described(d.commands, features, o.commands, conformance::shown_command(0x06, Privilege::Operate, false, false, None), 6);
    conformance::lemma_described(d.commands, features, o.commands, conformance::shown_command(0x07, Privilege::Operate, false, false, None), 7);
    conformance::lemma_described(d.commands, features, o.commands, conformance::shown_command(0x08, Privilege::Operate, false, false, None), 8);
    conformance::lemma_at_most(d.attributes, features, o.attributes, d.attributes.len() as int);
    conformance::lemma_at_most(d.commands, features, o.commands, d.commands.len() as int);
    conformance::lemma_at_most(d.events, features, o.events, d.events.len() as int);
}

} // verus!
