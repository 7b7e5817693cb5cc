use matter_clusters::clusters::basic_information::{CapabilityMinima, Location};
use matter_clusters::clusters::bridged_device_basic_information::BridgedDevice;
use matter_clusters::clusters::device_energy_management::ForecastSummary;
use matter_clusters::clusters::energy_evse::NextCharge;
use matter_clusters::clusters::ethernet_network_diagnostics::Reading;
use matter_clusters::clusters::general_diagnostics::{BootReason, DeviceLoad, InterfaceType};
use matter_clusters::clusters::icd_management::{ClientType, Feature, OperatingMode, UserActiveModeTrigger};
use matter_clusters::clusters::label::Label;

#[test]
fn what_nobody_said_is_unspecified() {
    assert_eq!(InterfaceType::default(), InterfaceType::Unspecified);
    assert_eq!(BootReason::default(), BootReason::Unspecified);
    assert_eq!(Reading::<u64>::default(), Reading::Unsupported);
    let d = BridgedDevice::default();
    assert!(d.vendor_name.is_none() && d.vendor_id.is_none() && d.product_id.is_none() && d.unique_id.is_none());
}

#[test]
fn what_has_not_begun_is_nothing() {
    let load = DeviceLoad::default();
    assert_eq!((load.current_subscriptions, load.total_im_messages_sent, load.total_im_messages_received), (0, 0, 0));
    let next = NextCharge::default();
    assert_eq!((next.start_time, next.target_time, next.required_energy, next.target_soc), (None, None, None, None));
    let plan = ForecastSummary::default();
    assert_eq!((plan.forecast_id, plan.start_time, plan.end_time, plan.slot_is_pausable), (0, 0, 0, false));
    let label = Label::default();
    assert_eq!((label.label, label.value), ("", ""));
}

#[test]
fn what_a_node_starts_with() {
    assert_eq!(Location::default().get(), Location::region_agnostic().get());
    assert_eq!(CapabilityMinima::default().case_sessions_per_fabric, 3);
    assert_eq!(Feature::default(), Feature(0));
    assert_eq!(UserActiveModeTrigger::default(), UserActiveModeTrigger(0));
    assert_eq!(ClientType::default(), ClientType::Permanent);
    assert_eq!(OperatingMode::default(), OperatingMode::Sit);
}
