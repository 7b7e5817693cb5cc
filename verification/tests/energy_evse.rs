use std::cell::{Cell, RefCell};

use matter_clusters::clusters::energy_evse::{
    with_all_optional, ChargingTargetStruct, EnergyEvse, EnergyTransferStoppedReasonEnum, Event, EvseHooks, FaultStateEnum,
    NextCharge, StateEnum, SupplyStateEnum, BATTERY_CAPACITY, CHARGING_ENABLED_UNTIL, CHARGING_PREFERENCES, CIRCUIT_CAPACITY,
    CLEAR_TARGETS, DISABLE, DISCHARGING_ENABLED_UNTIL, ENABLE_CHARGING, ENABLE_DISCHARGING, FAULT_STATE, GET_TARGETS,
    GET_TARGETS_RESPONSE, ID, MAXIMUM_CHARGE_CURRENT, MAXIMUM_DISCHARGE_CURRENT, MINIMUM_CHARGE_CURRENT, NEXT_CHARGE_START_TIME,
    SESSION_ID, SET_TARGETS, START_DIAGNOSTICS, STATE, SUPPLY_STATE, V2_X, VEHICLE_ID,
};
use matter_clusters::im::{
    AttributeId, ClusterHandler, CommandId, InteractionContext, Reply, Resolved, ResolvedCommand, Status, StatusIb,
};
use matter_clusters::platform::Instant;
use matter_clusters::tlv::Tag;

struct Charger {
    state: Cell<Option<StateEnum>>,
    fault: Cell<FaultStateEnum>,
    utc: Cell<Option<u32>>,
    user: Cell<i64>,
    willing: Cell<bool>,
    diagnosed: Cell<u32>,
    done: RefCell<Vec<String>>,
}

impl Charger {
    fn new() -> Self {
        Charger {
            state: Cell::new(Some(StateEnum::NotPluggedIn)),
            fault: Cell::new(FaultStateEnum::NoError),
            utc: Cell::new(Some(1000)),
            user: Cell::new(0),
            willing: Cell::new(true),
            diagnosed: Cell::new(0),
            done: RefCell::new(Vec::new()),
        }
    }
}

impl EvseHooks for &Charger {
    fn state(&self) -> Option<StateEnum> {
        self.state.get()
    }
    fn fault(&self) -> FaultStateEnum {
        self.fault.get()
    }
    fn utc(&self) -> Option<u32> {
        self.utc.get()
    }
    fn circuit_capacity(&self) -> i64 {
        32_000
    }
    fn user_maximum_charge_current(&self) -> i64 {
        self.user.get()
    }
    fn session_id(&self) -> Option<u32> {
        Some(5)
    }
    fn session_duration(&self) -> Option<u32> {
        None
    }
    fn session_energy_charged(&self) -> Option<i64> {
        None
    }
    fn next_charge(&self) -> NextCharge {
        NextCharge { start_time: Some(77), target_time: None, required_energy: None, target_soc: None }
    }
    fn disable(&self) -> bool {
        self.willing.get()
    }
    fn enable_charging(&self, minimum_ma: i64, maximum_ma: i64) -> bool {
        self.done.borrow_mut().push(format!("charge {} {}", minimum_ma, maximum_ma));
        self.willing.get()
    }
    fn enable_discharging(&self, maximum_ma: i64) -> bool {
        self.done.borrow_mut().push(format!("discharge {}", maximum_ma));
        self.willing.get()
    }
    fn start_diagnostics(&self) -> bool {
        self.diagnosed.set(self.diagnosed.get() + 1);
        self.willing.get()
    }
    fn targets_changed(&mut self) {
        self.done.borrow_mut().push("targets".to_string());
    }
}

type Evse<'a> = EnergyEvse<&'a Charger, 2>;

fn context() -> InteractionContext {
    InteractionContext::new(None, Instant { micros: 0 })
}

fn send(c: &mut Evse<'_>, command: CommandId, fields: Option<&[u8]>) -> Result<Reply, StatusIb> {
    c.perform(&ResolvedCommand { endpoint: 1, cluster: ID, command }, fields, &context(), Tag::Anonymous)
}

fn refusal(r: Result<Reply, StatusIb>) -> Status {
    r.err().expect("refused").status
}

fn read(c: &Evse<'_>, attribute: AttributeId) -> Vec<u8> {
    c.answer(&Resolved { endpoint: 1, cluster: ID, attribute }, &context(), Tag::Context(0)).ok().expect("read")
}

/// Until when (two octets, or always), and the two currents.
fn enable(until: Option<u16>, minimum: i8, maximum: i8) -> Vec<u8> {
    let mut out = vec![0x15];
    match until {
        Some(until) => out.extend_from_slice(&[0x25, 0x00, until as u8, (until >> 8) as u8]),
        None => out.extend_from_slice(&[0x34, 0x00]),
    }
    out.extend_from_slice(&[0x20, 0x01, minimum as u8, 0x20, 0x02, maximum as u8, 0x18]);
    out
}

fn discharge(until: u16, maximum: i8) -> Vec<u8> {
    vec![0x15, 0x25, 0x00, until as u8, (until >> 8) as u8, 0x20, 0x01, maximum as u8, 0x18]
}

/// Schedules: the days, and for each target a time of two octets.
fn schedules(list: &[(u8, &[u16])]) -> Vec<u8> {
    let mut out = vec![0x15, 0x36, 0x00];
    for (days, times) in list {
        out.extend_from_slice(&[0x15, 0x24, 0x00, *days, 0x36, 0x01]);
        for time in *times {
            out.extend_from_slice(&[0x15, 0x25, 0x00, *time as u8, (*time >> 8) as u8, 0x24, 0x01, 80, 0x18]);
        }
        out.extend_from_slice(&[0x18, 0x18]);
    }
    out.extend_from_slice(&[0x18, 0x18]);
    out
}

#[test]
fn it_starts_disabled_and_a_window_opens_it() {
    let hw = Charger::new();
    let mut c = Evse::new(&hw, V2_X);
    assert_eq!(c.supply_state(), SupplyStateEnum::Disabled);
    assert_eq!(read(&c, CHARGING_ENABLED_UNTIL), [0x24, 0x00, 0]);
    assert!(send(&mut c, ENABLE_CHARGING, Some(&enable(Some(2000), 6, 32))).is_ok());
    assert_eq!(c.supply_state(), SupplyStateEnum::ChargingEnabled);
    assert_eq!(c.charging_enabled_until(), Some(2000));
    assert!(send(&mut c, ENABLE_DISCHARGING, Some(&discharge(3000, 10))).is_ok());
    assert_eq!(c.supply_state(), SupplyStateEnum::Enabled);
    assert_eq!(c.discharging_enabled_until(), Some(3000));
    assert_eq!(read(&c, MAXIMUM_DISCHARGE_CURRENT), [0x20, 0x00, 10]);
    assert_eq!(*hw.done.borrow(), ["charge 6 32", "discharge 10"]);
    // The first window runs out while current flows.
    hw.state.set(Some(StateEnum::PluggedInCharging));
    c.poll();
    assert!(c.take_events().is_empty());
    hw.utc.set(Some(2000));
    c.poll();
    assert_eq!(c.supply_state(), SupplyStateEnum::DischargingEnabled);
    assert_eq!(c.take_events(), [Event::EnergyTransferStopped(EnergyTransferStoppedReasonEnum::EVSEStopped)]);
    hw.utc.set(Some(3000));
    c.poll();
    assert_eq!(c.supply_state(), SupplyStateEnum::Disabled);
}

#[test]
fn null_is_always_and_zero_is_never() {
    let hw = Charger::new();
    let mut c = Evse::new(&hw, 0);
    assert!(send(&mut c, ENABLE_CHARGING, Some(&enable(None, 6, 32))).is_ok());
    assert_eq!(read(&c, CHARGING_ENABLED_UNTIL), [0x34, 0x00]);
    hw.utc.set(Some(u32::MAX));
    c.poll();
    assert_eq!(c.supply_state(), SupplyStateEnum::ChargingEnabled);
    c.start(Some(0), None);
    // Without the feature, the second window does not count.
    assert_eq!(c.supply_state(), SupplyStateEnum::Disabled);
    // A clock that was never set closes nothing.
    hw.utc.set(None);
    c.start(Some(10), Some(0));
    assert_eq!(c.supply_state(), SupplyStateEnum::ChargingEnabled);
    let mut both = Evse::new(&hw, V2_X);
    both.start(None, None);
    assert_eq!(both.supply_state(), SupplyStateEnum::Enabled);
    assert_eq!(read(&both, DISCHARGING_ENABLED_UNTIL), [0x34, 0x00]);
}

#[test]
fn disabling_stops_everything() {
    let hw = Charger::new();
    let mut c = Evse::new(&hw, V2_X);
    c.start(None, None);
    hw.state.set(Some(StateEnum::PluggedInDischarging));
    assert!(c.transferring());
    hw.willing.set(false);
    assert_eq!(refusal(send(&mut c, DISABLE, None)), Status::Failure);
    assert_eq!(c.supply_state(), SupplyStateEnum::Enabled);
    hw.willing.set(true);
    assert!(send(&mut c, DISABLE, None).is_ok());
    assert_eq!(c.charging_enabled_until(), Some(0));
    assert_eq!(c.discharging_enabled_until(), Some(0));
    assert_eq!(c.supply_state(), SupplyStateEnum::Disabled);
    assert_eq!(c.take_events(), [Event::EnergyTransferStopped(EnergyTransferStoppedReasonEnum::EVSEStopped)]);
    hw.state.set(Some(StateEnum::NotPluggedIn));
    assert!(send(&mut c, DISABLE, None).is_ok());
    assert!(c.take_events().is_empty());
}

#[test]
fn a_fault_or_diagnostics_refuse_an_enable() {
    let hw = Charger::new();
    let mut c = Evse::new(&hw, V2_X);
    hw.fault.set(FaultStateEnum::MeterFailure);
    assert_eq!(c.supply_state(), SupplyStateEnum::DisabledError);
    assert_eq!(refusal(send(&mut c, ENABLE_CHARGING, Some(&enable(None, 6, 32)))), Status::Failure);
    assert_eq!(refusal(send(&mut c, ENABLE_DISCHARGING, Some(&discharge(9, 1)))), Status::Failure);
    assert_eq!(refusal(send(&mut c, START_DIAGNOSTICS, None)), Status::Failure);
    assert_eq!(read(&c, FAULT_STATE), [0x24, 0x00, FaultStateEnum::MeterFailure.value()]);
    hw.fault.set(FaultStateEnum::NoError);
    assert!(send(&mut c, START_DIAGNOSTICS, None).is_ok());
    assert_eq!(c.supply_state(), SupplyStateEnum::DisabledDiagnostics);
    assert_eq!(refusal(send(&mut c, ENABLE_CHARGING, Some(&enable(None, 6, 32)))), Status::Failure);
    assert!(send(&mut c, DISABLE, None).is_ok());
    assert_eq!(c.supply_state(), SupplyStateEnum::DisabledDiagnostics);
    c.diagnostics_complete();
    assert_eq!(c.supply_state(), SupplyStateEnum::Disabled);
    assert!(hw.done.borrow().is_empty());
}

#[test]
fn currents_are_a_window_with_something_in_it() {
    let hw = Charger::new();
    let mut c = Evse::new(&hw, V2_X);
    assert_eq!(refusal(send(&mut c, ENABLE_CHARGING, Some(&enable(None, -1, 32)))), Status::ConstraintError);
    assert_eq!(refusal(send(&mut c, ENABLE_CHARGING, Some(&enable(None, 33, 32)))), Status::ConstraintError);
    assert_eq!(refusal(send(&mut c, ENABLE_DISCHARGING, Some(&discharge(9, -1)))), Status::ConstraintError);
    assert!(hw.done.borrow().is_empty());
    hw.willing.set(false);
    assert_eq!(refusal(send(&mut c, ENABLE_CHARGING, Some(&enable(None, 6, 32)))), Status::Failure);
    assert_eq!(read(&c, MINIMUM_CHARGE_CURRENT), [0x20, 0x00, 0]);
    hw.willing.set(true);
    assert!(send(&mut c, ENABLE_CHARGING, Some(&enable(None, 6, 32))).is_ok());
    assert_eq!(read(&c, MINIMUM_CHARGE_CURRENT), [0x20, 0x00, 6]);
    assert_eq!(c.maximum_charge_current(), 32);
    hw.user.set(16);
    assert_eq!(c.maximum_charge_current(), 16);
    hw.user.set(64);
    assert_eq!(read(&c, MAXIMUM_CHARGE_CURRENT), [0x20, 0x00, 32]);
}

#[test]
fn targets_replace_only_their_own_days() {
    let hw = Charger::new();
    let mut c = Evse::new(&hw, CHARGING_PREFERENCES);
    // Sunday and Monday; then Monday alone.
    assert!(send(&mut c, SET_TARGETS, Some(&schedules(&[(0x03, &[480])]))).is_ok());
    assert!(send(&mut c, SET_TARGETS, Some(&schedules(&[(0x02, &[600, 700])]))).is_ok());
    assert_eq!(
        c.targets_for(0x01),
        [ChargingTargetStruct { target_time_minutes_past_midnight: 480, target_so_c: Some(80), added_energy: None }]
    );
    assert_eq!(c.targets_for(0x02).len(), 2);
    assert!(c.targets_for(0x04).is_empty());
    assert!(c.targets_for(0x03).is_empty());
    let told = send(&mut c, GET_TARGETS, None).ok().expect("told");
    assert_eq!(told.command, Some(GET_TARGETS_RESPONSE));
    assert_eq!(
        told.body,
        [
            0x15, 0x36, 0x00, 0x15, 0x24, 0x00, 0x01, 0x36, 0x01, 0x15, 0x25, 0x00, 0xE0, 0x01, 0x24, 0x01, 80, 0x18, 0x18, 0x18,
            0x15, 0x24, 0x00, 0x02, 0x36, 0x01, 0x15, 0x25, 0x00, 0x58, 0x02, 0x24, 0x01, 80, 0x18, 0x15, 0x25, 0x00, 0xBC, 0x02,
            0x24, 0x01, 80, 0x18, 0x18, 0x18, 0x18, 0x18,
        ]
    );
    // A day without targets is cleared.
    assert!(send(&mut c, SET_TARGETS, Some(&schedules(&[(0x01, &[])]))).is_ok());
    assert!(c.targets_for(0x01).is_empty());
    assert!(send(&mut c, CLEAR_TARGETS, None).is_ok());
    assert!(c.targets_for(0x02).is_empty());
    assert_eq!(*hw.done.borrow(), ["targets", "targets", "targets", "targets"]);
}

#[test]
fn a_refused_schedule_changes_nothing() {
    let hw = Charger::new();
    let mut c = Evse::new(&hw, CHARGING_PREFERENCES);
    assert!(send(&mut c, SET_TARGETS, Some(&schedules(&[(0x01, &[480])]))).is_ok());
    let before = c.targets_for(0x01);
    for (list, status) in [
        (schedules(&[(0x01, &[1]), (0x03, &[2])]), Status::ConstraintError),
        (schedules(&[(0x01, &[1440])]), Status::ConstraintError),
        (schedules(&[(0x01, &[1]), (0x02, &[1, 2, 3])]), Status::ResourceExhausted),
    ] {
        assert_eq!(refusal(send(&mut c, SET_TARGETS, Some(&list))), status);
        assert_eq!(c.targets_for(0x01), before);
    }
    let mut full = vec![0x15, 0x36, 0x00, 0x15, 0x24, 0x00, 0x01, 0x36, 0x01, 0x15, 0x24, 0x00, 1, 0x24, 0x01, 101, 0x18];
    full.extend_from_slice(&[0x18, 0x18, 0x18, 0x18]);
    assert_eq!(refusal(send(&mut c, SET_TARGETS, Some(&full))), Status::ConstraintError);
    assert_eq!(refusal(send(&mut c, SET_TARGETS, None)), Status::InvalidCommand);
    assert_eq!(refusal(send(&mut c, 0x66, None)), Status::UnsupportedCommand);
    assert_eq!(*hw.done.borrow(), ["targets"]);
}

#[test]
fn readings_are_null_where_nothing_is_known() {
    let hw = Charger::new();
    let mut c = Evse::new(&hw, V2_X);
    assert_eq!(read(&c, STATE), [0x24, 0x00, 0]);
    assert_eq!(read(&c, SUPPLY_STATE), [0x24, 0x00, 0]);
    assert_eq!(read(&c, CIRCUIT_CAPACITY), [0x21, 0x00, 0x00, 0x7D]);
    assert_eq!(read(&c, NEXT_CHARGE_START_TIME), [0x24, 0x00, 77]);
    assert_eq!(read(&c, BATTERY_CAPACITY), [0x34, 0x00]);
    assert_eq!(read(&c, VEHICLE_ID), [0x34, 0x00]);
    assert_eq!(read(&c, SESSION_ID), [0x24, 0x00, 5]);
    hw.state.set(None);
    assert_eq!(read(&c, STATE), [0x34, 0x00]);
    for n in 0..9u32 {
        c.record(Event::EvConnected(n));
    }
    let events = c.take_events();
    assert_eq!(events.len(), 8);
    assert_eq!(events[0], Event::EvConnected(1));
    assert!(Evse::conforming(V2_X, &with_all_optional()).is_ok());
}

#[test]
fn without_a_clock_no_window_runs_out() {
    let charger = Charger::new();
    let mut c: Evse<'_> = EnergyEvse::new(&charger, V2_X);
    assert!(send(&mut c, ENABLE_CHARGING, Some(&enable(Some(2000), 0, 100))).is_ok());
    assert!(send(&mut c, ENABLE_DISCHARGING, Some(&discharge(3000, 50))).is_ok());
    assert_eq!(c.supply_state(), SupplyStateEnum::Enabled);
    charger.utc.set(None);
    c.poll();
    assert_eq!(c.supply_state(), SupplyStateEnum::Enabled);
    // The clock is set, and one window ends before the other.
    charger.utc.set(Some(2000));
    c.poll();
    assert_eq!(c.supply_state(), SupplyStateEnum::DischargingEnabled);
    charger.utc.set(Some(3000));
    c.poll();
    assert_eq!(c.supply_state(), SupplyStateEnum::Disabled);
}

#[test]
fn diagnostics_are_started_only_where_nothing_flows() {
    let hw = Charger::new();
    let mut c = Evse::new(&hw, V2_X);
    hw.fault.set(FaultStateEnum::MeterFailure);
    assert_eq!(refusal(send(&mut c, START_DIAGNOSTICS, None)), Status::Failure);
    hw.fault.set(FaultStateEnum::NoError);
    assert!(send(&mut c, ENABLE_CHARGING, Some(&enable(None, 6, 32))).is_ok());
    assert_eq!(refusal(send(&mut c, START_DIAGNOSTICS, None)), Status::Failure);
    assert_eq!(hw.diagnosed.get(), 0);
    assert!(send(&mut c, DISABLE, None).is_ok());
    hw.willing.set(false);
    assert_eq!(refusal(send(&mut c, START_DIAGNOSTICS, None)), Status::Failure);
    hw.willing.set(true);
    assert!(send(&mut c, START_DIAGNOSTICS, None).is_ok());
    assert_eq!(refusal(send(&mut c, START_DIAGNOSTICS, None)), Status::Failure);
    assert_eq!(hw.diagnosed.get(), 2);
    assert_eq!(*hw.done.borrow(), ["charge 6 32"]);
}
