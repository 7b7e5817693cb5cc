use matter_clusters::clusters::bridged_device_basic_information::{
    BridgedDevice, BridgedDeviceBasicInformation, Event, PendingActive, BRIDGED_ICD_SUPPORT, CONFIGURATION_VERSION,
    HARDWARE_VERSION, ID, KEEP_ACTIVE, NODE_LABEL, PRODUCT_ID, REACHABLE, SERIAL_NUMBER, UNIQUE_ID, VENDOR_ID, VENDOR_NAME,
};
use matter_clusters::conformance::Optional;
use matter_clusters::im::{AttributeId, ClusterHandler, InteractionContext, Resolved, ResolvedCommand, Status, WriteOp};
use matter_clusters::msg::VendorId;
use matter_clusters::platform::Instant;
use matter_clusters::tlv::Tag;

fn at(micros: u64) -> InteractionContext {
    InteractionContext::new(None, Instant { micros })
}

fn path(attribute: AttributeId) -> Resolved {
    Resolved { endpoint: 3, cluster: ID, attribute }
}

fn lamp<'a>() -> BridgedDevice<'a> {
    BridgedDevice {
        vendor_name: Some("Acme"),
        vendor_id: Some(VendorId(0xFFF1)),
        hardware_version: Some(2),
        unique_id: Some("u-1"),
        configuration_version: Some(9),
        ..BridgedDevice::default()
    }
}

fn keep(c: &mut BridgedDeviceBasicInformation<'_>, stay: u8, timeout: u8, now: u64) {
    let fields = [0x15, 0x24, 0x00, stay, 0x24, 0x01, timeout, 0x18];
    let resolved = ResolvedCommand { endpoint: 3, cluster: ID, command: KEEP_ACTIVE };
    assert!(c.perform(&resolved, Some(&fields), &at(now), Tag::Anonymous).is_ok());
}

#[test]
fn only_what_the_bridge_knows_is_answered() {
    let c = BridgedDeviceBasicInformation::new(lamp(), true);
    let read = |attribute: AttributeId| c.answer(&path(attribute), &at(0), Tag::Context(0));
    assert_eq!(read(REACHABLE), Ok(vec![0x29, 0x00]));
    assert_eq!(read(VENDOR_NAME), Ok(vec![0x2C, 0x00, 0x04, b'A', b'c', b'm', b'e']));
    assert_eq!(read(VENDOR_ID), Ok(vec![0x25, 0x00, 0xF1, 0xFF]));
    assert_eq!(read(HARDWARE_VERSION), Ok(vec![0x24, 0x00, 2]));
    assert_eq!(read(UNIQUE_ID), Ok(vec![0x2C, 0x00, 0x03, b'u', b'-', b'1']));
    assert_eq!(read(CONFIGURATION_VERSION), Ok(vec![0x24, 0x00, 9]));
    assert_eq!(read(NODE_LABEL), Ok(vec![0x2C, 0x00, 0x00]));
    assert_eq!(read(PRODUCT_ID), Err(Status::UnsupportedAttribute));
    assert_eq!(read(SERIAL_NUMBER), Err(Status::UnsupportedAttribute));
    assert_eq!(read(0x99), Err(Status::UnsupportedAttribute));
    assert_eq!(c.device().vendor_name, Some("Acme"));
    assert!(BridgedDeviceBasicInformation::optional_for(&BridgedDevice::default()).attributes == [NODE_LABEL]);
}

#[test]
fn the_optional_attributes_are_those_that_can_be_filled() {
    let o = BridgedDeviceBasicInformation::optional_for(&lamp());
    assert_eq!(o.attributes, [VENDOR_NAME, VENDOR_ID, NODE_LABEL, HARDWARE_VERSION, UNIQUE_ID, CONFIGURATION_VERSION]);
    let d = BridgedDeviceBasicInformation::conforming(0, &o).ok().expect("conforms");
    assert!(d.descriptor().attributes.iter().any(|a| a.id == VENDOR_NAME));
    assert!(!d.descriptor().attributes.iter().any(|a| a.id == SERIAL_NUMBER));
    // The product's number cannot be chosen.
    let numbered = Optional { attributes: vec![PRODUCT_ID, SERIAL_NUMBER], commands: vec![], events: vec![] };
    let d = BridgedDeviceBasicInformation::conforming(0, &numbered).ok().expect("conforms");
    assert!(!d.descriptor().attributes.iter().any(|a| a.id == PRODUCT_ID));
    assert!(d.descriptor().attributes.iter().any(|a| a.id == SERIAL_NUMBER));
    assert_eq!(BridgedDeviceBasicInformation::with_keep_active().commands, [KEEP_ACTIVE]);
    let icd = BridgedDeviceBasicInformation::conforming(BRIDGED_ICD_SUPPORT, &Optional::none()).ok().expect("conforms");
    assert!(icd.descriptor().accepted_commands.iter().any(|c| c.id == KEEP_ACTIVE));
}

#[test]
fn reachability_is_told_only_when_it_changes() {
    let mut c = BridgedDeviceBasicInformation::new(lamp(), true);
    c.set_reachable(true);
    assert!(c.take_events().is_empty());
    c.set_reachable(false);
    c.set_reachable(false);
    c.set_reachable(true);
    assert_eq!(c.take_events(), [Event::ReachableChanged(false), Event::ReachableChanged(true)]);
    assert!(c.reachable());
    // The oldest of more than eight goes.
    for i in 0..9u8 {
        c.set_reachable(i % 2 == 1);
    }
    let events = c.take_events();
    assert_eq!(events.len(), 8);
    assert_eq!(events[0], Event::ReachableChanged(true));
    assert!(c.take_events().is_empty());
}

#[test]
fn a_second_request_never_shortens_the_first() {
    let mut c = BridgedDeviceBasicInformation::new(lamp(), true);
    keep(&mut c, 50, 200, 1_000);
    assert_eq!(
        c.pending_active(),
        Some(PendingActive { stay_active_ms: 50, expires: Instant { micros: 201_000 } })
    );
    keep(&mut c, 30, 100, 2_000);
    assert_eq!(
        c.pending_active(),
        Some(PendingActive { stay_active_ms: 50, expires: Instant { micros: 201_000 } })
    );
    keep(&mut c, 60, 210, 2_000);
    assert_eq!(
        c.pending_active(),
        Some(PendingActive { stay_active_ms: 60, expires: Instant { micros: 212_000 } })
    );
    c.poll(Instant { micros: 211_999 });
    assert!(c.pending_active().is_some());
    c.became_active();
    assert_eq!(c.take_events(), [Event::ActiveChanged(60)]);
    c.became_active();
    assert!(c.take_events().is_empty());
    keep(&mut c, 1, 1, 0);
    c.poll(Instant { micros: 1_000 });
    assert_eq!(c.pending_active(), None);
}

#[test]
fn only_the_label_is_written() {
    let mut c = BridgedDeviceBasicInformation::new(lamp(), true);
    assert_eq!(c.write(&path(NODE_LABEL), &[0x2C, 0x02, 0x02, b'h', b'i'], WriteOp::Replace, &at(0)), Ok(()));
    assert_eq!(c.node_label(), "hi");
    let mut long = vec![0x0C, 33];
    long.extend_from_slice(&[b'x'; 33]);
    assert_eq!(c.write(&path(NODE_LABEL), &long, WriteOp::Replace, &at(0)), Err(Status::ConstraintError));
    assert_eq!(c.write(&path(NODE_LABEL), &[0x04, 0x01], WriteOp::Replace, &at(0)), Err(Status::InvalidDataType));
    assert_eq!(c.write(&path(NODE_LABEL), &[], WriteOp::Replace, &at(0)), Err(Status::InvalidAction));
    assert_eq!(c.write(&path(REACHABLE), &[0x08], WriteOp::Replace, &at(0)), Err(Status::UnsupportedWrite));
    assert_eq!(c.node_label(), "hi");
    let other = ResolvedCommand { endpoint: 3, cluster: ID, command: 1 };
    assert_eq!(
        c.perform(&other, None, &at(0), Tag::Anonymous).err().expect("refused").status,
        Status::UnsupportedCommand
    );
}
