use std::cell::RefCell;

use matter_clusters::clusters::groups::Identifying;
use matter_clusters::clusters::identify::{
    with_trigger_effect, EffectIdentifierEnum, EffectVariantEnum, Identify, IdentifyHooks, IdentifyTypeEnum, ID, IDENTIFY,
    IDENTIFY_TIME, IDENTIFY_TYPE, TRIGGER_EFFECT,
};
use matter_clusters::conformance::Optional;
use matter_clusters::im::{
    ClusterHandler, CommandId, InteractionContext, Reply, Resolved, ResolvedCommand, Status, StatusIb, WriteOp,
};
use matter_clusters::platform::Instant;
use matter_clusters::tlv::Tag;

struct Lamp {
    seen: RefCell<Vec<bool>>,
    effects: RefCell<Vec<(EffectIdentifierEnum, EffectVariantEnum)>>,
}

impl Lamp {
    fn new() -> Self {
        Lamp { seen: RefCell::new(Vec::new()), effects: RefCell::new(Vec::new()) }
    }
}

impl IdentifyHooks for &Lamp {
    fn identifying(&mut self, on: bool) {
        self.seen.borrow_mut().push(on);
    }
    fn trigger_effect(&mut self, effect: EffectIdentifierEnum, variant: EffectVariantEnum) {
        self.effects.borrow_mut().push((effect, variant));
    }
}

fn seconds(n: u64) -> Instant {
    Instant { micros: n * 1_000_000 }
}

fn at(n: u64) -> InteractionContext {
    InteractionContext::new(None, seconds(n))
}

fn send(c: &mut Identify<&Lamp>, command: CommandId, fields: Option<&[u8]>, now: u64) -> Result<Reply, StatusIb> {
    c.perform(&ResolvedCommand { endpoint: 1, cluster: ID, command }, fields, &at(now), Tag::Anonymous)
}

#[test]
fn only_the_transitions_are_told() {
    let lamp = Lamp::new();
    let mut c = Identify::new(&lamp, IdentifyTypeEnum::LightOutput);
    assert!(send(&mut c, IDENTIFY, Some(&[0x15, 0x24, 0x00, 3, 0x18]), 10).is_ok());
    assert_eq!(c.remaining(), 3);
    assert!(c.is_identifying());
    assert!(Identifying::is_identifying(&c));
    assert_eq!(c.wake_at(), Some(seconds(11)));
    c.poll(Instant { micros: 10_999_999 });
    assert_eq!(c.remaining(), 3);
    c.poll(seconds(11));
    assert_eq!(c.remaining(), 2);
    // More time while it goes on is no transition.
    c.set_time(5, seconds(11));
    assert_eq!(*lamp.seen.borrow(), [true]);
    c.poll(seconds(13));
    assert_eq!(c.remaining(), 3);
    c.poll(seconds(100));
    assert_eq!(c.remaining(), 0);
    assert_eq!(c.wake_at(), None);
    assert_eq!(*lamp.seen.borrow(), [true, false]);
    c.poll(seconds(200));
    c.set_time(0, seconds(200));
    assert_eq!(*lamp.seen.borrow(), [true, false]);
}

#[test]
fn a_late_poll_is_as_good_as_many() {
    let lamp = Lamp::new();
    let mut often = Identify::new(&lamp, IdentifyTypeEnum::LightOutput);
    let mut late = Identify::new(&lamp, IdentifyTypeEnum::LightOutput);
    often.set_time(60, seconds(0));
    late.set_time(60, seconds(0));
    for n in 1..=40 {
        often.poll(seconds(n));
    }
    late.poll(seconds(40));
    assert_eq!(often.remaining(), 20);
    assert_eq!(late.remaining(), 20);
    assert_eq!(often.wake_at(), late.wake_at());
    // One poll makes up for an hour at most.
    late.set_time(5000, seconds(0));
    late.poll(seconds(4000));
    assert_eq!(late.remaining(), 1400);
}

#[test]
fn a_write_is_the_same_as_the_command() {
    let lamp = Lamp::new();
    let mut c = Identify::new(&lamp, IdentifyTypeEnum::Display);
    let time = Resolved { endpoint: 1, cluster: ID, attribute: IDENTIFY_TIME };
    assert_eq!(c.write(&time, &[0x25, 0x02, 0x2C, 0x01], WriteOp::Replace, &at(0)), Ok(()));
    assert_eq!(c.answer(&time, &at(0), Tag::Context(0)), Ok(vec![0x25, 0x00, 0x2C, 0x01]));
    assert_eq!(*lamp.seen.borrow(), [true]);
    assert_eq!(c.write(&time, &[0x06, 0, 0, 1, 0], WriteOp::Replace, &at(0)), Err(Status::ConstraintError));
    assert_eq!(c.write(&time, &[0x08], WriteOp::Replace, &at(0)), Err(Status::ConstraintError));
    assert_eq!(c.write(&time, &[], WriteOp::Replace, &at(0)), Err(Status::InvalidAction));
    let kind = Resolved { endpoint: 1, cluster: ID, attribute: IDENTIFY_TYPE };
    assert_eq!(c.write(&kind, &[0x04, 1], WriteOp::Replace, &at(0)), Err(Status::UnsupportedWrite));
    assert_eq!(c.answer(&kind, &at(0), Tag::Context(0)), Ok(vec![0x24, 0x00, 4]));
    assert_eq!(c.kind(), IdentifyTypeEnum::Display);
}

#[test]
fn an_effect_is_shown_where_it_is_one() {
    let lamp = Lamp::new();
    let mut c = Identify::new(&lamp, IdentifyTypeEnum::LightOutput);
    assert!(send(&mut c, TRIGGER_EFFECT, Some(&[0x15, 0x24, 0x00, 0x0B, 0x24, 0x01, 0x00, 0x18]), 0).is_ok());
    assert_eq!(*lamp.effects.borrow(), [(EffectIdentifierEnum::ChannelChange, EffectVariantEnum::Default)]);
    let reserved = send(&mut c, TRIGGER_EFFECT, Some(&[0x15, 0x24, 0x00, 0x05, 0x24, 0x01, 0x00, 0x18]), 0);
    assert_eq!(reserved.err().expect("refused").status, Status::ConstraintError);
    assert_eq!(lamp.effects.borrow().len(), 1);
    assert!(!c.is_identifying());
    assert_eq!(send(&mut c, IDENTIFY, None, 0).err().expect("refused").status, Status::InvalidCommand);
    assert_eq!(send(&mut c, 0x33, Some(&[0x15, 0x18]), 0).err().expect("refused").status, Status::UnsupportedCommand);
}

#[test]
fn the_effect_is_the_products_choice() {
    let with = Identify::<&Lamp>::conforming(&with_trigger_effect()).ok().expect("conforms");
    assert_eq!(with.descriptor().accepted_commands.len(), 2);
    let without = Identify::<&Lamp>::conforming(&Optional::none()).ok().expect("conforms");
    assert_eq!(without.descriptor().accepted_commands.len(), 1);
}
