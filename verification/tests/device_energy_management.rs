use std::cell::{Cell, RefCell};

use matter_clusters::clusters::device_energy_management::{
    AdjustmentCauseEnum, CauseEnum, ConstraintsStruct, DemHooks, DeviceEnergyManagement, ESAStateEnum, ESATypeEnum, Event,
    ForecastSummary, OptOutStateEnum, PowerAdjustReasonEnum, PowerAdjustStruct, SlotAdjustmentStruct, ABS_MAX_POWER,
    ABS_MIN_POWER, CANCEL_POWER_ADJUST_REQUEST, CANCEL_REQUEST, CONSTRAINT_BASED_ADJUSTMENT, ESA_CAN_GENERATE, ESA_STATE,
    ESA_TYPE, FORECAST, FORECAST_ADJUSTMENT, ID, MODIFY_FORECAST_REQUEST, OPT_OUT_STATE, PAUSABLE, PAUSE_REQUEST,
    POWER_ADJUSTMENT, POWER_ADJUSTMENT_CAPABILITY, POWER_ADJUST_REQUEST, REQUEST_CONSTRAINT_BASED_FORECAST, RESUME_REQUEST,
    START_TIME_ADJUSTMENT, START_TIME_ADJUST_REQUEST,
};
use matter_clusters::conformance::Optional;
use matter_clusters::im::{
    AttributeId, ClusterHandler, CommandId, InteractionContext, Reply, Resolved, ResolvedCommand, Status, StatusIb,
};
use matter_clusters::platform::Instant;
use matter_clusters::tlv::Tag;

struct Heater {
    base: Cell<ESAStateEnum>,
    opt_out: Cell<OptOutStateEnum>,
    interrupts: Cell<bool>,
    plan: Cell<Option<ForecastSummary>>,
    done: RefCell<Vec<String>>,
}

impl Heater {
    fn new() -> Self {
        Heater {
            base: Cell::new(ESAStateEnum::Online),
            opt_out: Cell::new(OptOutStateEnum::NoOptOut),
            interrupts: Cell::new(true),
            plan: Cell::new(Some(ForecastSummary {
                forecast_id: 4,
                start_time: 100,
                end_time: 150,
                earliest_start_time: Some(90),
                latest_end_time: Some(200),
                slot_is_pausable: true,
                min_pause_duration: 10,
                max_pause_duration: 20,
                adjusted: true,
            })),
            done: RefCell::new(Vec::new()),
        }
    }

    fn note(&self, what: String) -> Result<(), Status> {
        self.done.borrow_mut().push(what);
        Ok(())
    }
}

impl DemHooks for Heater {
    fn esa_type(&self) -> ESATypeEnum {
        ESATypeEnum::WaterHeating
    }
    fn base_state(&self) -> ESAStateEnum {
        self.base.get()
    }
    fn abs_min_power(&self) -> i64 {
        -5
    }
    fn abs_max_power(&self) -> i64 {
        3_000_000
    }
    fn opt_out_state(&self) -> OptOutStateEnum {
        self.opt_out.get()
    }
    fn power_adjust_ranges(&self) -> Vec<PowerAdjustStruct> {
        vec![PowerAdjustStruct { min_power: 10, max_power: 20, min_duration: 5, max_duration: 60 }]
    }
    fn forecast(&self) -> Option<ForecastSummary> {
        self.plan.get()
    }
    fn power_adjust(&self, power_mw: i64, duration_s: u32, _cause: AdjustmentCauseEnum) -> Result<(), Status> {
        self.note(format!("power {} {}", power_mw, duration_s))
    }
    fn may_interrupt_adjustment(&self) -> bool {
        self.interrupts.get()
    }
    fn end_power_adjust(&self, _cause: CauseEnum) {
        self.done.borrow_mut().push("end".to_string());
    }
    fn adjust_start_time(&self, requested_start_time: u32, _cause: AdjustmentCauseEnum) -> Result<(), Status> {
        self.note(format!("start {}", requested_start_time))
    }
    fn pause(&self, duration_s: u32, _cause: AdjustmentCauseEnum) -> Result<(), Status> {
        self.note(format!("pause {}", duration_s))
    }
    fn modify_forecast(&self, adjustments: &Vec<SlotAdjustmentStruct>, _cause: AdjustmentCauseEnum) -> Result<(), Status> {
        self.note(format!("modify {}", adjustments.len()))
    }
    fn constraint_based_forecast(&self, constraints: &Vec<ConstraintsStruct>, _cause: AdjustmentCauseEnum) -> Result<(), Status> {
        self.note(format!("constrain {}", constraints.len()))
    }
}

const ALL: u32 = 0x7F;

fn at(seconds: u64) -> InteractionContext {
    InteractionContext::new(None, when(seconds))
}

fn when(seconds: u64) -> Instant {
    Instant { micros: seconds * 1_000_000 }
}

fn send(
    c: &mut DeviceEnergyManagement<'_, Heater>,
    command: CommandId,
    fields: Option<&[u8]>,
    now: u64,
) -> Result<Reply, StatusIb> {
    c.perform(&ResolvedCommand { endpoint: 1, cluster: ID, command }, fields, &at(now), Tag::Anonymous)
}

fn refusal(r: Result<Reply, StatusIb>) -> Status {
    r.err().expect("refused").status
}

/// Power, duration and cause: 0 local, 1 grid.
fn adjust(power: u8, duration: u8, cause: u8) -> Vec<u8> {
    vec![0x15, 0x20, 0x00, power, 0x24, 0x01, duration, 0x24, 0x02, cause, 0x18]
}

/// A time or a duration, and the cause.
fn timed(value: u8, cause: u8) -> Vec<u8> {
    vec![0x15, 0x24, 0x00, value, 0x24, 0x01, cause, 0x18]
}

fn read(c: &DeviceEnergyManagement<'_, Heater>, attribute: AttributeId) -> Result<Vec<u8>, Status> {
    c.answer(&Resolved { endpoint: 1, cluster: ID, attribute }, &at(0), Tag::Context(0))
}

#[test]
fn an_adjustment_starts_and_ends_once() {
    let heater = Heater::new();
    let mut c = DeviceEnergyManagement::new(&heater, ALL);
    assert!(send(&mut c, POWER_ADJUST_REQUEST, Some(&adjust(15, 30, 1)), 100).is_ok());
    assert_eq!(c.adjust_reason(), PowerAdjustReasonEnum::GridOptimizationAdjustment);
    assert_eq!(c.state(), ESAStateEnum::PowerAdjustActive);
    assert_eq!(c.wake_at(), Some(when(130)));
    // A new one takes over without an end or a start.
    assert!(send(&mut c, POWER_ADJUST_REQUEST, Some(&adjust(16, 40, 0)), 105).is_ok());
    c.poll(when(130));
    assert_eq!(c.take_events(), [Event::PowerAdjustStart]);
    c.poll(when(145));
    assert_eq!(c.take_events(), [Event::PowerAdjustEnd(CauseEnum::NormalCompletion)]);
    assert_eq!(c.state(), ESAStateEnum::Online);
    assert_eq!(c.wake_at(), None);
    assert_eq!(*heater.done.borrow(), ["power 15 30", "power 16 40", "end"]);
    assert_eq!(refusal(send(&mut c, CANCEL_POWER_ADJUST_REQUEST, None, 150)), Status::InvalidInState);
}

#[test]
fn an_adjustment_keeps_to_what_is_offered() {
    let heater = Heater::new();
    let mut c = DeviceEnergyManagement::new(&heater, ALL);
    for (power, duration) in [(9, 30), (21, 30), (15, 4), (15, 61)] {
        assert_eq!(
            refusal(send(&mut c, POWER_ADJUST_REQUEST, Some(&adjust(power, duration, 0)), 0)),
            Status::ConstraintError
        );
    }
    heater.base.set(ESAStateEnum::Fault);
    assert_eq!(refusal(send(&mut c, POWER_ADJUST_REQUEST, Some(&adjust(15, 30, 0)), 0)), Status::Failure);
    heater.base.set(ESAStateEnum::Online);
    assert!(send(&mut c, POWER_ADJUST_REQUEST, Some(&adjust(15, 30, 0)), 0).is_ok());
    heater.interrupts.set(false);
    assert_eq!(refusal(send(&mut c, POWER_ADJUST_REQUEST, Some(&adjust(15, 30, 0)), 0)), Status::Busy);
    assert!(send(&mut c, CANCEL_POWER_ADJUST_REQUEST, None, 0).is_ok());
    assert_eq!(c.take_events(), [Event::PowerAdjustStart, Event::PowerAdjustEnd(CauseEnum::Cancelled)]);
    assert_eq!(refusal(send(&mut c, POWER_ADJUST_REQUEST, None, 0)), Status::InvalidCommand);
    assert_eq!(refusal(send(&mut c, POWER_ADJUST_REQUEST, Some(&adjust(15, 30, 2)), 0)), Status::ConstraintError);
}

#[test]
fn the_householder_vetoes_by_reason() {
    let heater = Heater::new();
    let mut c = DeviceEnergyManagement::new(&heater, ALL);
    heater.opt_out.set(OptOutStateEnum::GridOptOut);
    assert_eq!(refusal(send(&mut c, POWER_ADJUST_REQUEST, Some(&adjust(15, 30, 1)), 0)), Status::ConstraintError);
    assert!(send(&mut c, POWER_ADJUST_REQUEST, Some(&adjust(15, 30, 0)), 0).is_ok());
    heater.opt_out.set(OptOutStateEnum::LocalOptOut);
    assert_eq!(refusal(send(&mut c, PAUSE_REQUEST, Some(&timed(15, 0)), 0)), Status::ConstraintError);
    heater.opt_out.set(OptOutStateEnum::OptOut);
    assert_eq!(refusal(send(&mut c, START_TIME_ADJUST_REQUEST, Some(&timed(100, 1)), 0)), Status::ConstraintError);
    c.abort(CauseEnum::UserOptOut);
    assert_eq!(c.take_events(), [Event::PowerAdjustStart, Event::PowerAdjustEnd(CauseEnum::UserOptOut)]);
}

#[test]
fn a_second_pause_extends_the_first() {
    let heater = Heater::new();
    let mut c = DeviceEnergyManagement::new(&heater, ALL);
    assert_eq!(refusal(send(&mut c, PAUSE_REQUEST, Some(&timed(9, 0)), 0)), Status::ConstraintError);
    assert_eq!(refusal(send(&mut c, PAUSE_REQUEST, Some(&timed(21, 0)), 0)), Status::ConstraintError);
    assert_eq!(refusal(send(&mut c, RESUME_REQUEST, None, 0)), Status::InvalidInState);
    assert!(send(&mut c, PAUSE_REQUEST, Some(&timed(10, 0)), 0).is_ok());
    assert_eq!(c.state(), ESAStateEnum::Paused);
    assert!(send(&mut c, PAUSE_REQUEST, Some(&timed(20, 0)), 5).is_ok());
    assert_eq!(c.wake_at(), Some(when(30)));
    c.poll(when(29));
    assert_eq!(c.state(), ESAStateEnum::Paused);
    // A fault is never hidden behind a pause.
    heater.base.set(ESAStateEnum::Fault);
    assert_eq!(c.state(), ESAStateEnum::Fault);
    heater.base.set(ESAStateEnum::Online);
    c.poll(when(30));
    assert_eq!(c.take_events(), [Event::Paused, Event::Resumed(CauseEnum::NormalCompletion)]);
    assert!(send(&mut c, PAUSE_REQUEST, Some(&timed(10, 0)), 40).is_ok());
    assert!(send(&mut c, RESUME_REQUEST, None, 41).is_ok());
    assert_eq!(c.take_events(), [Event::Paused, Event::Resumed(CauseEnum::Cancelled)]);
    let mut plan = heater.plan.get().expect("planned");
    plan.slot_is_pausable = false;
    heater.plan.set(Some(plan));
    assert_eq!(refusal(send(&mut c, PAUSE_REQUEST, Some(&timed(10, 0)), 40)), Status::Failure);
}

#[test]
fn a_plan_moves_within_its_bounds() {
    let heater = Heater::new();
    let mut c = DeviceEnergyManagement::new(&heater, ALL);
    assert_eq!(refusal(send(&mut c, START_TIME_ADJUST_REQUEST, Some(&timed(89, 0)), 0)), Status::ConstraintError);
    assert!(send(&mut c, START_TIME_ADJUST_REQUEST, Some(&timed(90, 0)), 0).is_ok());
    assert!(send(&mut c, START_TIME_ADJUST_REQUEST, Some(&timed(150, 0)), 0).is_ok());
    assert_eq!(refusal(send(&mut c, START_TIME_ADJUST_REQUEST, Some(&timed(151, 0)), 0)), Status::ConstraintError);
    assert_eq!(*heater.done.borrow(), ["start 90", "start 150"]);
    heater.plan.set(None);
    assert_eq!(refusal(send(&mut c, START_TIME_ADJUST_REQUEST, Some(&timed(90, 0)), 0)), Status::Failure);
}

#[test]
fn a_forecast_is_modified_as_a_whole() {
    let heater = Heater::new();
    let mut c = DeviceEnergyManagement::new(&heater, ALL);
    let slot = [0x15, 0x24, 0x00, 1, 0x24, 0x02, 9, 0x18];
    let modify = |id: u8, count: usize| {
        let mut out = vec![0x15, 0x24, 0x00, id, 0x36, 0x01];
        for _ in 0..count {
            out.extend_from_slice(&slot);
        }
        out.extend_from_slice(&[0x18, 0x24, 0x02, 0, 0x18]);
        out
    };
    assert!(send(&mut c, MODIFY_FORECAST_REQUEST, Some(&modify(4, 2)), 0).is_ok());
    assert!(send(&mut c, MODIFY_FORECAST_REQUEST, Some(&modify(4, 10)), 0).is_ok());
    assert_eq!(refusal(send(&mut c, MODIFY_FORECAST_REQUEST, Some(&modify(4, 11)), 0)), Status::ConstraintError);
    assert_eq!(refusal(send(&mut c, MODIFY_FORECAST_REQUEST, Some(&modify(5, 1)), 0)), Status::Failure);
    let constrain = [0x15, 0x36, 0x00, 0x15, 0x24, 0x00, 1, 0x24, 0x01, 9, 0x18, 0x18, 0x24, 0x01, 0, 0x18];
    assert!(send(&mut c, REQUEST_CONSTRAINT_BASED_FORECAST, Some(&constrain), 0).is_ok());
    assert_eq!(*heater.done.borrow(), ["modify 2", "modify 10", "constrain 1"]);
    assert!(send(&mut c, CANCEL_REQUEST, None, 0).is_ok());
    let mut plan = heater.plan.get().expect("planned");
    plan.adjusted = false;
    heater.plan.set(Some(plan));
    assert_eq!(refusal(send(&mut c, CANCEL_REQUEST, None, 0)), Status::InvalidInState);
}

#[test]
fn a_command_needs_its_feature() {
    let heater = Heater::new();
    let mut none = DeviceEnergyManagement::new(&heater, 0);
    for command in 0..=7u32 {
        assert_eq!(refusal(send(&mut none, command, Some(&timed(10, 0)), 0)), Status::UnsupportedCommand);
    }
    assert_eq!(refusal(send(&mut none, 0x40, None, 0)), Status::UnsupportedCommand);
    for feature in [START_TIME_ADJUSTMENT, FORECAST_ADJUSTMENT, CONSTRAINT_BASED_ADJUSTMENT] {
        let mut c = DeviceEnergyManagement::new(&heater, feature);
        assert!(send(&mut c, CANCEL_REQUEST, None, 0).is_ok());
    }
    let mut pausing = DeviceEnergyManagement::new(&heater, PAUSABLE);
    assert!(send(&mut pausing, PAUSE_REQUEST, Some(&timed(10, 0)), 0).is_ok());
    let d = DeviceEnergyManagement::<'_, Heater>::conforming(POWER_ADJUSTMENT, &Optional::none()).ok().expect("conforms");
    let commands: Vec<CommandId> = d.descriptor().accepted_commands.iter().map(|c| c.id).collect();
    assert_eq!(commands, [POWER_ADJUST_REQUEST, CANCEL_POWER_ADJUST_REQUEST]);
}

#[test]
fn the_attributes_are_the_appliances_and_the_clusters() {
    let heater = Heater::new();
    let mut c = DeviceEnergyManagement::new(&heater, ALL);
    assert_eq!(read(&c, ESA_TYPE), Ok(vec![0x24, 0x00, ESATypeEnum::WaterHeating.value()]));
    assert_eq!(read(&c, ESA_CAN_GENERATE), Ok(vec![0x28, 0x00]));
    assert_eq!(read(&c, ESA_STATE), Ok(vec![0x24, 0x00, ESAStateEnum::Online.value()]));
    assert_eq!(read(&c, ABS_MIN_POWER), Ok(vec![0x20, 0x00, 0xFB]));
    assert_eq!(read(&c, ABS_MAX_POWER), Ok(vec![0x22, 0x00, 0xC0, 0xC6, 0x2D, 0x00]));
    assert_eq!(read(&c, OPT_OUT_STATE), Ok(vec![0x24, 0x00, 0]));
    assert_eq!(read(&c, FORECAST), Ok(vec![0x34, 0x00]));
    assert_eq!(read(&c, 0x99), Err(Status::UnsupportedAttribute));
    let ranges = |cause: u8| {
        vec![
            0x35, 0x00, 0x36, 0x00, 0x15, 0x20, 0x00, 10, 0x20, 0x01, 20, 0x24, 0x02, 5, 0x24, 0x03, 60, 0x18, 0x18, 0x24, 0x01,
            cause, 0x18,
        ]
    };
    assert_eq!(read(&c, POWER_ADJUSTMENT_CAPABILITY), Ok(ranges(0)));
    assert!(send(&mut c, POWER_ADJUST_REQUEST, Some(&adjust(15, 30, 1)), 0).is_ok());
    assert_eq!(read(&c, POWER_ADJUSTMENT_CAPABILITY), Ok(ranges(2)));
}
