use std::cell::{Cell, RefCell};

use matter_clusters::clusters::level_control::{
    with_all_optional, with_range_only, LevelControl, LevelControlHooks, NoOnOff, OnOffState, CURRENT_FREQUENCY, CURRENT_LEVEL,
    DEFAULT_MOVE_RATE, ID, LIGHTING, MAX_LEVEL, MIN_LEVEL, MOVE, MOVE_TO_CLOSEST_FREQUENCY, MOVE_TO_LEVEL,
    MOVE_TO_LEVEL_WITH_ON_OFF, MOVE_WITH_ON_OFF, OFF_TRANSITION_TIME, ON_LEVEL, ON_OFF_TRANSITION_TIME, ON_TRANSITION_TIME,
    OPTIONS, REMAINING_TIME, START_UP_CURRENT_LEVEL, STEP, STEP_WITH_ON_OFF, STOP,
};
use matter_clusters::im::{
    AttributeId, ClusterHandler, CommandId, InteractionContext, Reply, Resolved, ResolvedCommand, Status, StatusIb, WriteOp,
};
use matter_clusters::platform::Instant;
use matter_clusters::tlv::Tag;

struct Lamp {
    levels: RefCell<Vec<Option<u8>>>,
    frequencies: RefCell<Vec<u16>>,
}

impl Lamp {
    fn new() -> Self {
        Lamp { levels: RefCell::new(Vec::new()), frequencies: RefCell::new(Vec::new()) }
    }
}

impl LevelControlHooks for &Lamp {
    fn level(&mut self, level: Option<u8>) {
        self.levels.borrow_mut().push(level);
    }
    fn frequency(&self, frequency: u16) -> bool {
        self.frequencies.borrow_mut().push(frequency);
        frequency <= 100
    }
}

struct Switch {
    on: Cell<bool>,
    set: RefCell<Vec<bool>>,
}

impl Switch {
    fn new(on: bool) -> Self {
        Switch { on: Cell::new(on), set: RefCell::new(Vec::new()) }
    }
}

impl OnOffState for &Switch {
    fn is_on(&self) -> bool {
        self.on.get()
    }
    fn set_from_level(&mut self, on: bool) {
        self.on.set(on);
        self.set.borrow_mut().push(on);
    }
}

/// Tenths of a second.
fn tenths(n: u64) -> Instant {
    Instant { micros: n * 100_000 }
}

fn at(n: u64) -> InteractionContext {
    InteractionContext::new(None, tenths(n))
}

fn send<O: OnOffState>(
    c: &mut LevelControl<&Lamp, O>,
    command: CommandId,
    fields: &[u8],
    now: u64,
) -> Result<Reply, StatusIb> {
    c.perform(&ResolvedCommand { endpoint: 1, cluster: ID, command }, Some(fields), &at(now), Tag::Anonymous)
}

fn read<O: OnOffState>(c: &LevelControl<&Lamp, O>, attribute: AttributeId) -> Vec<u8> {
    c.answer(&Resolved { endpoint: 1, cluster: ID, attribute }, &at(0), Tag::Context(0)).ok().expect("read")
}

fn write<O: OnOffState>(c: &mut LevelControl<&Lamp, O>, attribute: AttributeId, data: &[u8]) -> Result<(), Status> {
    c.write(&Resolved { endpoint: 1, cluster: ID, attribute }, data, WriteOp::Replace, &at(0))
}

/// Level, time in tenths or null, and no options.
fn to_level(level: u8, time: Option<u8>) -> Vec<u8> {
    let mut out = vec![0x15, 0x24, 0x00, level];
    match time {
        Some(time) => out.extend_from_slice(&[0x24, 0x01, time]),
        None => out.extend_from_slice(&[0x34, 0x01]),
    }
    out.extend_from_slice(&[0x24, 0x02, 0x00, 0x24, 0x03, 0x00, 0x18]);
    out
}

/// A move: up is 0; the rate may be null.
fn moving(mode: u8, rate: Option<u8>) -> Vec<u8> {
    let mut out = vec![0x15, 0x24, 0x00, mode];
    match rate {
        Some(rate) => out.extend_from_slice(&[0x24, 0x01, rate]),
        None => out.extend_from_slice(&[0x34, 0x01]),
    }
    out.extend_from_slice(&[0x24, 0x02, 0x00, 0x24, 0x03, 0x00, 0x18]);
    out
}

fn step(mode: u8, size: u8, time: u8) -> Vec<u8> {
    vec![0x15, 0x24, 0x00, mode, 0x24, 0x01, size, 0x24, 0x02, time, 0x24, 0x03, 0x00, 0x24, 0x04, 0x00, 0x18]
}

fn refusal(r: Result<Reply, StatusIb>) -> Status {
    r.err().expect("refused").status
}

#[test]
fn a_transition_is_walked_and_not_jumped() {
    let lamp = Lamp::new();
    let mut c = LevelControl::new(&lamp, LIGHTING);
    c.start(Some(10));
    assert_eq!(c.level(), Some(10));
    assert!(send(&mut c, MOVE_TO_LEVEL, &to_level(110, Some(10)), 0).is_ok());
    assert_eq!(c.remaining_time(), 10);
    assert_eq!(c.wake_at(), Some(tenths(1)));
    c.poll(Instant { micros: 99_999 });
    assert_eq!(c.level(), Some(10));
    c.poll(tenths(1));
    assert_eq!(c.level(), Some(20));
    assert_eq!(read(&c, REMAINING_TIME), [0x24, 0x00, 9]);
    // A late poll is where it would have been.
    c.poll(tenths(7));
    assert_eq!(c.level(), Some(80));
    c.poll(tenths(30));
    assert_eq!(c.level(), Some(110));
    assert_eq!(c.wake_at(), None);
    assert_eq!(c.remaining_time(), 0);
    assert_eq!(*lamp.levels.borrow(), [Some(10), Some(10), Some(20), Some(80), Some(110)]);
}

#[test]
fn a_level_is_clipped_to_the_range() {
    let lamp = Lamp::new();
    let mut c = LevelControl::new(&lamp, 0).with_range(5, 200);
    assert!(send(&mut c, MOVE_TO_LEVEL, &to_level(255, Some(0)), 0).is_ok());
    assert_eq!(c.level(), Some(200));
    assert!(send(&mut c, MOVE_TO_LEVEL, &to_level(0, Some(0)), 0).is_ok());
    assert_eq!(c.level(), Some(5));
    assert_eq!(read(&c, MIN_LEVEL), [0x24, 0x00, 5]);
    assert_eq!(read(&c, MAX_LEVEL), [0x24, 0x00, 200]);
    // A lighting device's range is fixed, and a range has two ends.
    assert_eq!(LevelControl::new(&lamp, LIGHTING).with_range(5, 200).min_level(), 1);
    assert_eq!(LevelControl::new(&lamp, 0).with_range(9, 8).max_level(), 254);
}

#[test]
fn a_slow_move_still_moves_and_stops_at_the_end() {
    let lamp = Lamp::new();
    let mut c = LevelControl::new(&lamp, LIGHTING);
    c.start(Some(250));
    assert!(send(&mut c, MOVE, &moving(0, Some(1)), 0).is_ok());
    assert_eq!(c.remaining_time(), 40);
    c.poll(tenths(9));
    assert_eq!(c.level(), Some(250));
    c.poll(tenths(10));
    assert_eq!(c.level(), Some(251));
    c.poll(tenths(1000));
    assert_eq!(c.level(), Some(254));
    assert_eq!(c.wake_at(), None);
    // Down at 55 a second: five and a half each tenth.
    assert!(send(&mut c, MOVE, &moving(1, Some(55)), 2000).is_ok());
    c.poll(tenths(2002));
    assert_eq!(c.level(), Some(243));
    assert!(send(&mut c, STOP, &[0x15, 0x24, 0x00, 0x00, 0x24, 0x01, 0x00, 0x18], 2002).is_ok());
    c.poll(tenths(3000));
    assert_eq!(c.level(), Some(243));
    // As fast as it is able.
    assert!(send(&mut c, MOVE, &moving(1, None), 3000).is_ok());
    assert_eq!(c.level(), Some(1));
    assert_eq!(write(&mut c, DEFAULT_MOVE_RATE, &[0x04, 10]), Ok(()));
    assert!(send(&mut c, MOVE, &moving(0, None), 3000).is_ok());
    c.poll(tenths(3001));
    assert_eq!(c.level(), Some(2));
    assert_eq!(refusal(send(&mut c, MOVE, &moving(0, Some(0)), 3001)), Status::InvalidCommand);
}

#[test]
fn a_clipped_step_takes_its_share_of_the_time() {
    let lamp = Lamp::new();
    let mut c = LevelControl::new(&lamp, LIGHTING);
    c.start(Some(100));
    assert!(send(&mut c, STEP, &step(0, 50, 10), 0).is_ok());
    assert_eq!(c.remaining_time(), 10);
    c.poll(tenths(10));
    assert_eq!(c.level(), Some(150));
    c.start(Some(21));
    assert!(send(&mut c, STEP, &step(1, 40, 10), 20).is_ok());
    assert_eq!(c.remaining_time(), 5);
    c.poll(tenths(25));
    assert_eq!(c.level(), Some(1));
    assert_eq!(refusal(send(&mut c, STEP, &step(0, 0, 10), 30)), Status::InvalidCommand);
}

#[test]
fn a_switch_that_is_off_holds_plain_commands_back() {
    let lamp = Lamp::new();
    let switch = Switch::new(false);
    let mut c = LevelControl::with_on_off(&lamp, &switch, LIGHTING);
    c.start(Some(10));
    assert!(send(&mut c, MOVE_TO_LEVEL, &to_level(100, Some(0)), 0).is_ok());
    assert_eq!(c.level(), Some(10));
    // This once.
    let this_once = [0x15, 0x24, 0x00, 100, 0x24, 0x01, 0, 0x24, 0x02, 0x01, 0x24, 0x03, 0x01, 0x18];
    assert!(send(&mut c, MOVE_TO_LEVEL, &this_once, 0).is_ok());
    assert_eq!(c.level(), Some(100));
    assert_eq!(c.options(), 0);
    assert!(switch.set.borrow().is_empty());
    // Or always.
    assert_eq!(write(&mut c, OPTIONS, &[0x04, 0x01]), Ok(()));
    assert!(send(&mut c, MOVE_TO_LEVEL, &to_level(50, Some(0)), 0).is_ok());
    assert_eq!(c.level(), Some(50));
    // And a mask can take it away again.
    let not_now = [0x15, 0x24, 0x00, 100, 0x24, 0x01, 0, 0x24, 0x02, 0x01, 0x24, 0x03, 0x00, 0x18];
    assert!(send(&mut c, MOVE_TO_LEVEL, &not_now, 0).is_ok());
    assert_eq!(c.level(), Some(50));
}

#[test]
fn linked_commands_carry_the_switch_along() {
    let lamp = Lamp::new();
    let switch = Switch::new(false);
    let mut c = LevelControl::with_on_off(&lamp, &switch, LIGHTING);
    c.start(Some(1));
    assert!(send(&mut c, MOVE_TO_LEVEL_WITH_ON_OFF, &to_level(100, Some(5)), 0).is_ok());
    assert_eq!(*switch.set.borrow(), [true]);
    c.poll(tenths(5));
    assert_eq!(c.level(), Some(100));
    assert!(send(&mut c, MOVE_TO_LEVEL_WITH_ON_OFF, &to_level(1, Some(5)), 10).is_ok());
    assert_eq!(*switch.set.borrow(), [true]);
    c.poll(tenths(14));
    assert_eq!(*switch.set.borrow(), [true]);
    c.poll(tenths(15));
    assert_eq!(*switch.set.borrow(), [true, false]);
    assert!(send(&mut c, MOVE_WITH_ON_OFF, &moving(0, Some(10)), 20).is_ok());
    assert_eq!(*switch.set.borrow(), [true, false, true]);
    // A stop at the minimum switches nothing off.
    c.start(Some(1));
    assert!(send(&mut c, STOP, &[0x15, 0x24, 0x00, 0x00, 0x24, 0x01, 0x00, 0x18], 20).is_ok());
    assert_eq!(switch.set.borrow().len(), 3);
    assert!(send(&mut c, STEP_WITH_ON_OFF, &step(1, 10, 0), 21).is_ok());
    assert_eq!(*switch.set.borrow(), [true, false, true, false]);
}

#[test]
fn the_switch_can_fade_the_lamp() {
    let lamp = Lamp::new();
    let mut c = LevelControl::new(&lamp, LIGHTING);
    assert_eq!(write(&mut c, ON_OFF_TRANSITION_TIME, &[0x04, 10]), Ok(()));
    c.start(Some(200));
    c.on_off_changed(false, None, tenths(0));
    c.poll(tenths(10));
    assert_eq!(c.level(), Some(1));
    c.on_off_changed(true, Some(201), tenths(20));
    assert_eq!(c.level(), Some(1));
    c.poll(tenths(25));
    assert_eq!(c.level(), Some(101));
    c.set_on_level(Some(51));
    assert_eq!(write(&mut c, ON_TRANSITION_TIME, &[0x04, 5]), Ok(()));
    c.on_off_changed(true, Some(201), tenths(30));
    c.poll(tenths(35));
    assert_eq!(c.level(), Some(51));
    assert_eq!(write(&mut c, OFF_TRANSITION_TIME, &[0x14]), Ok(()));
    assert_eq!(read(&c, OFF_TRANSITION_TIME), [0x34, 0x00]);
}

#[test]
fn a_start_is_as_the_setting_says() {
    let lamp = Lamp::new();
    let mut c = LevelControl::new(&lamp, LIGHTING);
    assert_eq!(read(&c, CURRENT_LEVEL), [0x34, 0x00]);
    c.start(None);
    assert_eq!(c.level(), None);
    c.start(Some(0));
    assert_eq!(c.level(), Some(1));
    c.set_start_up_level(Some(0));
    c.start(Some(99));
    assert_eq!(c.level(), Some(1));
    assert_eq!(write(&mut c, START_UP_CURRENT_LEVEL, &[0x04, 255]), Ok(()));
    c.start(Some(99));
    assert_eq!(c.level(), Some(254));
    assert_eq!(read(&c, START_UP_CURRENT_LEVEL), [0x24, 0x00, 255]);
}

#[test]
fn settings_keep_to_their_constraints() {
    let lamp = Lamp::new();
    let mut c = LevelControl::new(&lamp, 0).with_range(5, 200);
    assert_eq!(write(&mut c, ON_LEVEL, &[0x04, 4]), Err(Status::ConstraintError));
    assert_eq!(write(&mut c, ON_LEVEL, &[0x04, 201]), Err(Status::ConstraintError));
    assert_eq!(write(&mut c, ON_LEVEL, &[0x04, 5]), Ok(()));
    assert_eq!(c.on_level(), Some(5));
    assert_eq!(write(&mut c, ON_LEVEL, &[0x14]), Ok(()));
    assert_eq!(c.on_level(), None);
    assert_eq!(write(&mut c, DEFAULT_MOVE_RATE, &[0x04, 0]), Err(Status::ConstraintError));
    assert_eq!(write(&mut c, OPTIONS, &[0x04, 0x04]), Err(Status::ConstraintError));
    assert_eq!(write(&mut c, OPTIONS, &[0x14]), Err(Status::InvalidDataType));
    assert_eq!(write(&mut c, OPTIONS, &[0x08]), Err(Status::InvalidDataType));
    assert_eq!(write(&mut c, ON_OFF_TRANSITION_TIME, &[0x06, 0, 0, 1, 0]), Err(Status::ConstraintError));
    assert_eq!(write(&mut c, CURRENT_LEVEL, &[0x04, 1]), Err(Status::UnsupportedWrite));
    assert_eq!(write(&mut c, CURRENT_LEVEL, &[]), Err(Status::InvalidAction));
}

#[test]
fn a_frequency_is_the_devices_to_judge() {
    let lamp = Lamp::new();
    let mut c = LevelControl::new(&lamp, 0).with_frequency(10, 100);
    assert!(send(&mut c, MOVE_TO_CLOSEST_FREQUENCY, &[0x15, 0x24, 0x00, 60, 0x18], 0).is_ok());
    assert_eq!(read(&c, CURRENT_FREQUENCY), [0x24, 0x00, 60]);
    assert_eq!(
        refusal(send(&mut c, MOVE_TO_CLOSEST_FREQUENCY, &[0x15, 0x24, 0x00, 101, 0x18], 0)),
        Status::ConstraintError
    );
    assert_eq!(read(&c, CURRENT_FREQUENCY), [0x24, 0x00, 60]);
    assert_eq!(refusal(send(&mut c, 0x55, &[0x15, 0x18], 0)), Status::UnsupportedCommand);
    let resolved = ResolvedCommand { endpoint: 1, cluster: ID, command: MOVE };
    assert_eq!(refusal(c.perform(&resolved, None, &at(0), Tag::Anonymous)), Status::InvalidCommand);
}

#[test]
fn the_range_is_described_where_it_is_chosen() {
    let with = LevelControl::<&Lamp, NoOnOff>::conforming(0, &with_range_only()).ok().expect("conforms");
    assert!(with.descriptor().attributes.iter().any(|a| a.id == MIN_LEVEL));
    let all = LevelControl::<&Lamp, NoOnOff>::conforming(0, &with_all_optional()).ok().expect("conforms");
    assert!(all.descriptor().attributes.iter().any(|a| a.id == DEFAULT_MOVE_RATE));
    assert_eq!(all.descriptor().accepted_commands.len(), 8);
}

#[test]
fn only_its_own_command_names_a_frequency() {
    let lamp = Lamp::new();
    let mut c = LevelControl::new(&lamp, LIGHTING);
    assert!(send(&mut c, MOVE_TO_LEVEL, &to_level(60, Some(0)), 0).is_ok());
    assert!(send(&mut c, STEP, &step(0, 5, 0), 1).is_ok());
    assert!(send(&mut c, MOVE_TO_CLOSEST_FREQUENCY, &[0x15, 0x18], 2).is_err());
    assert!(lamp.frequencies.borrow().is_empty());
    let shown = lamp.levels.borrow().len();
    assert!(send(&mut c, MOVE_TO_CLOSEST_FREQUENCY, &[0x15, 0x24, 0x00, 50, 0x18], 3).is_ok());
    assert_eq!(*lamp.frequencies.borrow(), [50]);
    assert_eq!(lamp.levels.borrow().len(), shown);
}
