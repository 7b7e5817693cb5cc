use std::cell::RefCell;

use matter_clusters::clusters::general_diagnostics::{
    all_optional, check_enable_key, conforming, BootReason, DeviceLoad, Diagnostics, GeneralDiagnostics, HardwareFault,
    InterfaceType, NetworkFault, NetworkInterface, RadioFault, Unknown, ACTIVE_HARDWARE_FAULTS, ACTIVE_NETWORK_FAULTS,
    ACTIVE_RADIO_FAULTS, BOOT_REASON, DEVICE_LOAD_STATUS, FEATURE_DATA_MODEL_TEST, ID, NETWORK_INTERFACES, PAYLOAD_TEST_REQUEST,
    PAYLOAD_TEST_RESPONSE, REBOOT_COUNT, TEST_EVENT_TRIGGER, TEST_EVENT_TRIGGERS_ENABLED, TIME_SNAPSHOT, TIME_SNAPSHOT_RESPONSE,
    TOTAL_OPERATIONAL_HOURS, UP_TIME,
};
use matter_clusters::conformance::Optional;
use matter_clusters::crypto::SymmetricKey;
use matter_clusters::im::{
    AttributeId, ClusterHandler, CommandId, InteractionContext, Reply, Resolved, ResolvedCommand, Status, StatusIb,
};
use matter_clusters::platform::Instant;
use matter_clusters::tlv::{Tag, TlvWriter};

struct Unit {
    key: Option<SymmetricKey>,
    fired: RefCell<Vec<u64>>,
}

impl Unit {
    fn new(key: Option<[u8; 16]>) -> Self {
        Unit { key: key.map(SymmetricKey::new), fired: RefCell::new(Vec::new()) }
    }
}

impl Diagnostics for Unit {
    fn network_interfaces(&self) -> Vec<NetworkInterface<'_>> {
        vec![NetworkInterface {
            name: "eth0",
            is_operational: true,
            off_premise_ipv4: None,
            off_premise_ipv6: Some(false),
            hardware_address: &[1, 2, 3, 4, 5, 6],
            ipv4_addresses: &[[10, 0, 0, 1]],
            ipv6_addresses: &[],
            interface_type: InterfaceType::Ethernet,
        }]
    }
    fn reboot_count(&self) -> u16 {
        3
    }
    fn up_time(&self) -> u64 {
        1000
    }
    fn total_operational_hours(&self) -> Option<u32> {
        Some(7)
    }
    fn boot_reason(&self) -> BootReason {
        BootReason::SoftwareReset
    }
    fn active_hardware_faults(&self) -> Vec<HardwareFault> {
        vec![HardwareFault::Sensor, HardwareFault::TamperDetected]
    }
    fn active_radio_faults(&self) -> Vec<RadioFault> {
        vec![RadioFault::EthernetFault]
    }
    fn active_network_faults(&self) -> Vec<NetworkFault> {
        vec![NetworkFault::ConnectionFailed]
    }
    fn device_load(&self, _ctx: &InteractionContext) -> Option<DeviceLoad> {
        Some(DeviceLoad {
            current_subscriptions: 1,
            current_subscriptions_for_fabric: 2,
            total_subscriptions_established: 3,
            total_im_messages_sent: 4,
            total_im_messages_received: 5,
        })
    }
    fn enable_key(&self) -> Option<&SymmetricKey> {
        self.key.as_ref()
    }
    fn test_event_trigger(&self, trigger: u64) -> bool {
        self.fired.borrow_mut().push(trigger);
        trigger == 9
    }
    fn posix_time_ms(&self) -> Option<u64> {
        Some(5)
    }
}

fn context() -> InteractionContext {
    InteractionContext::new(None, Instant { micros: 2_500_000 })
}

fn read<D: Diagnostics>(c: &GeneralDiagnostics<'_, D>, attribute: AttributeId) -> Result<Vec<u8>, Status> {
    c.answer(&Resolved { endpoint: 0, cluster: ID, attribute }, &context(), Tag::Context(0))
}

fn send<D: Diagnostics>(
    c: &mut GeneralDiagnostics<'_, D>,
    command: CommandId,
    fields: Option<&[u8]>,
) -> Result<Reply, StatusIb> {
    c.perform(&ResolvedCommand { endpoint: 0, cluster: ID, command }, fields, &context(), Tag::Anonymous)
}

fn refusal(r: Result<Reply, StatusIb>) -> Status {
    r.err().expect("refused").status
}

const KEY: [u8; 16] = [0x42; 16];

fn trigger(key: &[u8], event: u8) -> Vec<u8> {
    let mut out = vec![0x15, 0x30, 0x00, key.len() as u8];
    out.extend_from_slice(key);
    out.extend_from_slice(&[0x24, 0x01, event, 0x18]);
    out
}

fn payload(key: &[u8], value: u8, count: u16) -> Vec<u8> {
    let mut out = vec![0x15, 0x30, 0x00, key.len() as u8];
    out.extend_from_slice(key);
    out.extend_from_slice(&[0x24, 0x01, value, 0x25, 0x02, count as u8, (count >> 8) as u8, 0x18]);
    out
}

#[test]
fn what_the_device_knows_is_told() {
    let unit = Unit::new(None);
    let c = GeneralDiagnostics::new(&unit, 0);
    assert_eq!(
        read(&c, NETWORK_INTERFACES),
        Ok(vec![
            0x36, 0x00, 0x15, 0x2C, 0x00, 0x04, b'e', b't', b'h', b'0', 0x29, 0x01, 0x34, 0x02, 0x28, 0x03, 0x30, 0x04, 0x06, 1,
            2, 3, 4, 5, 6, 0x36, 0x05, 0x10, 0x04, 10, 0, 0, 1, 0x18, 0x36, 0x06, 0x18, 0x24, 0x07, 0x02, 0x18, 0x18,
        ])
    );
    assert_eq!(read(&c, REBOOT_COUNT), Ok(vec![0x24, 0x00, 3]));
    assert_eq!(read(&c, UP_TIME), Ok(vec![0x25, 0x00, 0xE8, 0x03]));
    assert_eq!(read(&c, TOTAL_OPERATIONAL_HOURS), Ok(vec![0x24, 0x00, 7]));
    assert_eq!(read(&c, BOOT_REASON), Ok(vec![0x24, 0x00, 6]));
    assert_eq!(read(&c, ACTIVE_HARDWARE_FAULTS), Ok(vec![0x36, 0x00, 0x04, 2, 0x04, 10, 0x18]));
    assert_eq!(read(&c, ACTIVE_RADIO_FAULTS), Ok(vec![0x36, 0x00, 0x04, 6, 0x18]));
    assert_eq!(read(&c, ACTIVE_NETWORK_FAULTS), Ok(vec![0x36, 0x00, 0x04, 3, 0x18]));
    assert_eq!(
        read(&c, DEVICE_LOAD_STATUS),
        Ok(vec![0x35, 0x00, 0x24, 0, 1, 0x24, 1, 2, 0x24, 2, 3, 0x24, 3, 4, 0x24, 4, 5, 0x18])
    );
    assert_eq!(read(&c, TEST_EVENT_TRIGGERS_ENABLED), Ok(vec![0x28, 0x00]));
    assert_eq!(read(&c, 0x99), Err(Status::UnsupportedAttribute));
}

#[test]
fn what_the_device_does_not_know_is_not_invented() {
    let c = GeneralDiagnostics::new(&Unknown, 0);
    assert_eq!(read(&c, NETWORK_INTERFACES), Ok(vec![0x36, 0x00, 0x18]));
    assert_eq!(read(&c, REBOOT_COUNT), Ok(vec![0x24, 0x00, 0]));
    assert_eq!(read(&c, UP_TIME), Ok(vec![0x24, 0x00, 0]));
    assert_eq!(read(&c, BOOT_REASON), Ok(vec![0x24, 0x00, 0]));
    assert_eq!(read(&c, TOTAL_OPERATIONAL_HOURS), Err(Status::UnsupportedAttribute));
    assert_eq!(read(&c, DEVICE_LOAD_STATUS), Err(Status::UnsupportedAttribute));
    assert!(!c.triggers_enabled());
}

#[test]
fn a_trigger_needs_the_key() {
    let unit = Unit::new(Some(KEY));
    let mut c = GeneralDiagnostics::new(&unit, 0);
    assert!(c.triggers_enabled());
    assert_eq!(read(&c, TEST_EVENT_TRIGGERS_ENABLED), Ok(vec![0x29, 0x00]));
    assert_eq!(refusal(send(&mut c, TEST_EVENT_TRIGGER, Some(&trigger(&[1; 16], 9)))), Status::ConstraintError);
    assert_eq!(refusal(send(&mut c, TEST_EVENT_TRIGGER, Some(&trigger(&[0; 16], 9)))), Status::ConstraintError);
    assert_eq!(refusal(send(&mut c, TEST_EVENT_TRIGGER, Some(&trigger(&[0x42; 15], 9)))), Status::ConstraintError);
    assert_eq!(refusal(send(&mut c, TEST_EVENT_TRIGGER, Some(&trigger(&[0x42; 33], 9)))), Status::ConstraintError);
    assert!(unit.fired.borrow().is_empty());
    assert_eq!(refusal(send(&mut c, TEST_EVENT_TRIGGER, Some(&trigger(&KEY, 8)))), Status::InvalidCommand);
    assert!(send(&mut c, TEST_EVENT_TRIGGER, Some(&trigger(&KEY, 9))).is_ok());
    assert_eq!(*unit.fired.borrow(), [8, 9]);
    assert_eq!(c.set_triggers_enabled(false), Ok(()));
    assert_eq!(refusal(send(&mut c, TEST_EVENT_TRIGGER, Some(&trigger(&KEY, 9)))), Status::ConstraintError);
    assert_eq!(c.set_triggers_enabled(true), Ok(()));
    assert_eq!(refusal(send(&mut c, TEST_EVENT_TRIGGER, None)), Status::InvalidCommand);
    assert_eq!(refusal(send(&mut c, TEST_EVENT_TRIGGER, Some(&[0x15, 0x24, 0x01, 0x09, 0x18]))), Status::InvalidCommand);
    assert_eq!(refusal(send(&mut c, TEST_EVENT_TRIGGER, Some(&[0x04, 0x01]))), Status::InvalidAction);

    let shipped = Unit::new(None);
    let mut c = GeneralDiagnostics::new(&shipped, 0);
    assert_eq!(c.set_triggers_enabled(true), Err(Status::ConstraintError));
    assert_eq!(refusal(send(&mut c, TEST_EVENT_TRIGGER, Some(&trigger(&KEY, 9)))), Status::ConstraintError);
    assert!(!check_enable_key(true, &KEY, None));
    assert!(check_enable_key(true, &KEY, Some(&SymmetricKey::new(KEY))));
}

#[test]
fn a_zero_key_opens_nothing() {
    assert!(!check_enable_key(true, &[0; 16], Some(&SymmetricKey::new([0; 16]))));
}

#[test]
fn time_is_told_as_it_is_known() {
    let unit = Unit::new(None);
    let mut c = GeneralDiagnostics::new(&unit, 0);
    let reply = send(&mut c, TIME_SNAPSHOT, None).ok().expect("told");
    assert_eq!(reply.command, Some(TIME_SNAPSHOT_RESPONSE));
    assert_eq!(reply.body, [0x15, 0x25, 0x00, 0xC4, 0x09, 0x24, 0x01, 5, 0x18]);
    let mut blank = GeneralDiagnostics::new(&Unknown, 0);
    let reply = send(&mut blank, TIME_SNAPSHOT, None).ok().expect("told");
    assert_eq!(reply.body, [0x15, 0x25, 0x00, 0xC4, 0x09, 0x34, 0x01, 0x18]);
}

#[test]
fn a_payload_test_is_for_test_units() {
    let unit = Unit::new(Some(KEY));
    let mut without = GeneralDiagnostics::new(&unit, 0);
    assert_eq!(refusal(send(&mut without, PAYLOAD_TEST_REQUEST, Some(&payload(&KEY, 7, 3)))), Status::UnsupportedCommand);
    let mut c = GeneralDiagnostics::new(&unit, FEATURE_DATA_MODEL_TEST);
    let reply = send(&mut c, PAYLOAD_TEST_REQUEST, Some(&payload(&KEY, 7, 3))).ok().expect("answered");
    assert_eq!(reply.command, Some(PAYLOAD_TEST_RESPONSE));
    assert_eq!(reply.body, [0x15, 0x30, 0x00, 3, 7, 7, 7, 0x18]);
    assert_eq!(refusal(send(&mut c, PAYLOAD_TEST_REQUEST, Some(&payload(&KEY, 7, 2049)))), Status::ConstraintError);
    assert_eq!(refusal(send(&mut c, PAYLOAD_TEST_REQUEST, Some(&payload(&[9; 16], 7, 3)))), Status::ConstraintError);
    // One that does not fit says so.
    let resolved = ResolvedCommand { endpoint: 0, cluster: ID, command: PAYLOAD_TEST_REQUEST };
    let mut w = TlvWriter::new(20);
    let r = c.invoke(&resolved, Some(&payload(&KEY, 7, 300)), &context(), &mut w, Tag::Anonymous);
    assert_eq!(r.unwrap_err().status, Status::ResourceExhausted);
}

#[test]
fn the_payload_test_is_described_only_with_its_feature() {
    let plain = conforming(0, &all_optional()).ok().expect("conforms");
    assert!(!plain.descriptor().accepted_commands.iter().any(|c| c.id == PAYLOAD_TEST_REQUEST));
    assert_eq!(plain.descriptor().attributes.len(), 10);
    assert_eq!(plain.descriptor().events.len(), 4);
    let test = conforming(FEATURE_DATA_MODEL_TEST, &Optional::none()).ok().expect("conforms");
    assert!(test.descriptor().accepted_commands.iter().any(|c| c.id == PAYLOAD_TEST_REQUEST));
    assert_eq!(test.descriptor().attributes.len(), 4);
    assert!(conforming(2, &Optional::none()).is_err());
}
