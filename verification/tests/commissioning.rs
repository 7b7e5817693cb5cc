use std::cell::Cell;

use matter_clusters::clusters::administrator_commissioning::{
    self as administrator, AdminStatus, AdministratorCommissioning, AdministratorHooks, OpenWindowRequest, Revoked,
    ADMIN_FABRIC_INDEX, ADMIN_VENDOR_ID, OPEN_BASIC_COMMISSIONING_WINDOW, OPEN_COMMISSIONING_WINDOW, REVOKE_COMMISSIONING,
    WINDOW_STATUS,
};
use matter_clusters::clusters::basic_information::Location;
use matter_clusters::clusters::general_commissioning::{
    self as general, Aftermath, GeneralCommissioning, NetworkRecoveryReason, Recovery, RegulatoryLocation, ARM_FAIL_SAFE,
    ARM_FAIL_SAFE_RESPONSE, BASIC_COMMISSIONING_INFO, BREADCRUMB, COMMISSIONING_COMPLETE, COMMISSIONING_COMPLETE_RESPONSE,
    LOCATION_CAPABILITY, NETWORK_RECOVERY_REASON, RECOVERY_IDENTIFIER, REGULATORY_CONFIG, SET_REGULATORY_CONFIG,
    SET_REGULATORY_CONFIG_RESPONSE, SUPPORTS_CONCURRENT_CONNECTION,
};
use matter_clusters::commissioning::{BasicCommissioningInfo, Cleanup, CommissioningError, FailSafe, Progress, Shared, WindowStatus};
use matter_clusters::im::{
    AttributeId, ClusterHandler, ClusterId, CommandId, InteractionContext, Reply, Resolved, ResolvedCommand, Status, StatusIb, WriteOp,
};
use matter_clusters::msg::{FabricIndex, VendorId};
use matter_clusters::platform::Instant;
use matter_clusters::tlv::Tag;

const INFO: BasicCommissioningInfo = BasicCommissioningInfo { expiry_length_seconds: 60, max_cumulative_seconds: 900 };

fn seconds(n: u64) -> Instant {
    Instant { micros: n * 1_000_000 }
}

fn over_case(fabric: u8, now: u64) -> InteractionContext {
    InteractionContext::new(Some(FabricIndex(fabric)), seconds(now))
}

fn over_pase(now: u64) -> InteractionContext {
    InteractionContext::new(None, seconds(now))
}

fn send<C: ClusterHandler>(
    c: &mut C,
    cluster: ClusterId,
    command: CommandId,
    fields: Option<&[u8]>,
    ctx: &InteractionContext,
) -> Result<Reply, StatusIb> {
    c.perform(&ResolvedCommand { endpoint: 0, cluster, command }, fields, ctx, Tag::Anonymous)
}

fn refusal(r: Result<Reply, StatusIb>) -> StatusIb {
    r.err().expect("refused")
}

fn read<C: ClusterHandler>(
    c: &C,
    cluster: ClusterId,
    attribute: AttributeId,
    ctx: &InteractionContext,
) -> Result<Vec<u8>, Status> {
    c.answer(&Resolved { endpoint: 0, cluster, attribute }, ctx, Tag::Context(0))
}

struct Node {
    vendor: Cell<Option<VendorId>>,
}

impl AdministratorHooks for Node {
    fn vendor_of_fabric(&self, fabric: FabricIndex) -> Option<VendorId> {
        if fabric == FabricIndex(2) {
            self.vendor.get()
        } else {
            None
        }
    }
    fn is_verifier(&self, verifier: &[u8]) -> bool {
        verifier[0] != 0xFF
    }
}

fn node() -> Node {
    Node { vendor: Cell::new(Some(VendorId(0xFFF1))) }
}

/// The fields of an enhanced window.
fn open_fields(timeout: u16, verifier: &[u8], discriminator: u16, iterations: u32, salt: &[u8]) -> Vec<u8> {
    let mut out = vec![0x15, 0x25, 0x00, timeout as u8, (timeout >> 8) as u8, 0x30, 0x01, verifier.len() as u8];
    out.extend_from_slice(verifier);
    out.extend_from_slice(&[0x25, 0x02, discriminator as u8, (discriminator >> 8) as u8, 0x26, 0x03]);
    out.extend_from_slice(&iterations.to_le_bytes());
    out.extend_from_slice(&[0x30, 0x04, salt.len() as u8]);
    out.extend_from_slice(salt);
    out.push(0x18);
    out
}

fn enhanced() -> Vec<u8> {
    open_fields(180, &[1; 97], 0x0ABC, 1000, &[7; 16])
}

#[test]
fn an_enhanced_window_opens_and_says_who_opened_it() {
    let node = node();
    let mut c = AdministratorCommissioning::new(Shared::new(INFO), &node);
    let ctx = over_case(2, 10);
    assert_eq!(read(&c, administrator::ID, WINDOW_STATUS, &ctx), Ok(vec![0x24, 0x00, 0]));
    assert_eq!(read(&c, administrator::ID, ADMIN_FABRIC_INDEX, &ctx), Ok(vec![0x34, 0x00]));
    let done = send(&mut c, administrator::ID, OPEN_COMMISSIONING_WINDOW, Some(&enhanced()), &ctx).ok().expect("opened");
    assert_eq!(done.command, None);
    assert_eq!(read(&c, administrator::ID, WINDOW_STATUS, &ctx), Ok(vec![0x24, 0x00, 1]));
    assert_eq!(read(&c, administrator::ID, ADMIN_FABRIC_INDEX, &ctx), Ok(vec![0x24, 0x00, 2]));
    assert_eq!(read(&c, administrator::ID, ADMIN_VENDOR_ID, &ctx), Ok(vec![0x25, 0x00, 0xF1, 0xFF]));
    // The vendor is that of the opening, whatever becomes of it.
    node.vendor.set(None);
    assert_eq!(read(&c, administrator::ID, ADMIN_VENDOR_ID, &ctx), Ok(vec![0x25, 0x00, 0xF1, 0xFF]));
    let window = c.shared.window.open(seconds(189)).expect("open");
    assert_eq!(window.discriminator, 0x0ABC);
    assert_eq!(window.status, WindowStatus::EnhancedOpen);
    let ephemeral = window.ephemeral.as_ref().expect("a verifier");
    assert_eq!(ephemeral.verifier, [1; 97]);
    assert_eq!(ephemeral.iterations, 1000);
    assert_eq!(ephemeral.salt, [7; 16]);
    // It closes by itself.
    let later = over_case(2, 190);
    assert_eq!(read(&c, administrator::ID, WINDOW_STATUS, &later), Ok(vec![0x24, 0x00, 0]));
    assert_eq!(read(&c, administrator::ID, ADMIN_FABRIC_INDEX, &later), Ok(vec![0x34, 0x00]));
    assert_eq!(read(&c, administrator::ID, ADMIN_VENDOR_ID, &later), Ok(vec![0x34, 0x00]));
    assert_eq!(read(&c, administrator::ID, 3, &later), Err(Status::UnsupportedAttribute));
}

#[test]
fn a_window_does_not_open_beside_another() {
    let node = node();
    let mut c = AdministratorCommissioning::new(Shared::new(INFO), &node).with_basic();
    let ctx = over_case(2, 10);
    assert!(send(&mut c, administrator::ID, OPEN_COMMISSIONING_WINDOW, Some(&enhanced()), &ctx).is_ok());
    let busy = AdminStatus::Busy.as_status();
    assert_eq!(busy.status, Status::Failure);
    assert_eq!(busy.cluster_status, Some(2));
    assert_eq!(refusal(send(&mut c, administrator::ID, OPEN_COMMISSIONING_WINDOW, Some(&enhanced()), &ctx)), busy);
    let basic = [0x15, 0x25, 0x00, 0x84, 0x03, 0x18];
    assert_eq!(refusal(send(&mut c, administrator::ID, OPEN_BASIC_COMMISSIONING_WINDOW, Some(&basic), &ctx)), busy);
    // Nor while a fail-safe is armed.
    let mut c = AdministratorCommissioning::new(Shared::new(INFO), &node).with_basic();
    let (error, _) = c.shared.fail_safe.arm(60, 1, None, seconds(10), false);
    assert_eq!(error, CommissioningError::Success);
    assert_eq!(refusal(send(&mut c, administrator::ID, OPEN_COMMISSIONING_WINDOW, Some(&enhanced()), &ctx)), busy);
    assert!(send(&mut c, administrator::ID, OPEN_COMMISSIONING_WINDOW, Some(&enhanced()), &over_case(2, 70)).is_ok());
}

#[test]
fn bad_parameters_have_a_status_of_their_own() {
    let node = node();
    let mut c = AdministratorCommissioning::new(Shared::new(INFO), &node);
    let ctx = over_case(2, 10);
    let pake = AdminStatus::PakeParameterError.as_status();
    for fields in [
        open_fields(180, &[1; 96], 0, 1000, &[7; 16]),
        open_fields(180, &[0xFF; 97], 0, 1000, &[7; 16]),
        open_fields(180, &[1; 97], 0, 999, &[7; 16]),
        open_fields(180, &[1; 97], 0, 100_001, &[7; 16]),
        open_fields(180, &[1; 97], 0, 1000, &[7; 15]),
        open_fields(180, &[1; 97], 0, 1000, &[7; 33]),
    ] {
        assert_eq!(refusal(send(&mut c, administrator::ID, OPEN_COMMISSIONING_WINDOW, Some(&fields), &ctx)), pake);
    }
    for (fields, status) in [
        (open_fields(179, &[1; 97], 0, 1000, &[7; 16]), Status::InvalidCommand),
        (open_fields(901, &[1; 97], 0, 1000, &[7; 16]), Status::InvalidCommand),
        (open_fields(900, &[1; 97], 4096, 1000, &[7; 16]), Status::ConstraintError),
        (vec![0x15, 0x18], Status::InvalidCommand),
        (vec![0x15], Status::InvalidCommand),
        (vec![0x16, 0x18], Status::InvalidCommand),
        (vec![0x15, 0x26, 0x00, 0, 0, 1, 0, 0x18], Status::ConstraintError),
        (vec![0x15, 0x24, 0x00, 1, 0x24, 0x00, 1, 0x18], Status::InvalidCommand),
    ] {
        let refused = refusal(send(&mut c, administrator::ID, OPEN_COMMISSIONING_WINDOW, Some(&fields), &ctx));
        assert_eq!((refused.status, refused.cluster_status), (status, None));
    }
    assert_eq!(refusal(send(&mut c, administrator::ID, OPEN_COMMISSIONING_WINDOW, None, &ctx)).status, Status::InvalidCommand);
    let request = OpenWindowRequest { timeout_seconds: 180, verifier: &[1; 10], discriminator: 0, iterations: 1000, salt: &[7; 16] };
    assert_eq!(c.open_commissioning_window(&request, &ctx), Err(pake));
    assert_eq!(c.shared.window.status(seconds(10)), WindowStatus::NotOpen);
}

#[test]
fn a_basic_window_needs_its_feature() {
    let node = node();
    let basic = [0x15, 0x25, 0x00, 0x84, 0x03, 0x18];
    let ctx = over_case(1, 0);
    let mut c = AdministratorCommissioning::new(Shared::new(INFO), &node);
    assert_eq!(refusal(send(&mut c, administrator::ID, OPEN_BASIC_COMMISSIONING_WINDOW, Some(&basic), &ctx)).status, Status::UnsupportedCommand);
    assert_eq!(c.descriptor().accepted_commands.len(), 2);
    assert_eq!(c.descriptor().feature_map, 0);
    let mut c = c.with_basic();
    assert_eq!(c.descriptor().accepted_commands.len(), 3);
    assert_eq!(c.descriptor().feature_map, 1);
    assert!(c.descriptor().accepted_commands.iter().all(|d| d.access.is_timed()));
    assert!(send(&mut c, administrator::ID, OPEN_BASIC_COMMISSIONING_WINDOW, Some(&basic), &ctx).is_ok());
    assert_eq!(read(&c, administrator::ID, WINDOW_STATUS, &ctx), Ok(vec![0x24, 0x00, 2]));
    assert_eq!(read(&c, administrator::ID, ADMIN_VENDOR_ID, &ctx), Ok(vec![0x34, 0x00]));
    assert!(c.shared.window.open(seconds(0)).expect("open").ephemeral.is_none());
    assert_eq!(refusal(send(&mut c, administrator::ID, 7, None, &ctx)).status, Status::UnsupportedCommand);
}

#[test]
fn a_basic_window_is_announced_under_the_printed_discriminator() {
    let node = node();
    let basic = [0x15, 0x25, 0x00, 0x84, 0x03, 0x18];
    let ctx = over_case(1, 0);
    let mut c = AdministratorCommissioning::new(Shared::new(INFO), &node).with_basic().with_discriminator(0x0ABC);
    assert!(send(&mut c, administrator::ID, OPEN_BASIC_COMMISSIONING_WINDOW, Some(&basic), &ctx).is_ok());
    assert_eq!(c.shared.window.open(seconds(0)).expect("open").discriminator, 0x0ABC);
    let mut c = AdministratorCommissioning::new(Shared::new(INFO), &node).with_basic().with_discriminator(0x1000);
    assert_eq!(
        refusal(send(&mut c, administrator::ID, OPEN_BASIC_COMMISSIONING_WINDOW, Some(&basic), &ctx)).status,
        Status::ConstraintError
    );
}

#[test]
fn revoking_closes_what_a_passcode_opened() {
    let node = node();
    let mut c = AdministratorCommissioning::new(Shared::new(INFO), &node);
    let ctx = over_case(2, 10);
    assert!(send(&mut c, administrator::ID, OPEN_COMMISSIONING_WINDOW, Some(&enhanced()), &ctx).is_ok());
    let (_, _) = c.shared.fail_safe.arm(60, 1, None, seconds(10), false);
    let (revoked, status) = c.revoke_commissioning(&ctx);
    assert!(status.is_ok());
    let cleanup = Cleanup { fabric_index: None, added: None, updated: None, root_added: false };
    assert_eq!(revoked, Revoked { close_pase_sessions: true, fail_safe_cleanup: Some(cleanup), stop_advertising: true });
    assert!(!c.shared.fail_safe.is_armed(seconds(10)));
    // A second time there is nothing to close, and the sessions are closed all the same.
    let (revoked, status) = c.revoke_commissioning(&ctx);
    assert_eq!(status, Err(AdminStatus::WindowNotOpen.as_status()));
    assert_eq!(revoked, Revoked { close_pase_sessions: true, fail_safe_cleanup: None, stop_advertising: false });
    assert_eq!(refusal(send(&mut c, administrator::ID, REVOKE_COMMISSIONING, None, &ctx)).cluster_status, Some(4));
    // What a fabric armed stays armed.
    let (_, _) = c.shared.fail_safe.arm(60, 1, Some(FabricIndex(2)), seconds(10), false);
    let (revoked, _) = c.revoke_commissioning(&ctx);
    assert_eq!(revoked.fail_safe_cleanup, None);
    assert!(c.shared.fail_safe.is_armed(seconds(10)));
}

fn general() -> GeneralCommissioning {
    GeneralCommissioning::new(Location::region_agnostic(), RegulatoryLocation::IndoorOutdoor, Shared::new(INFO))
}

fn outcome(told: Result<Reply, StatusIb>, command: CommandId) -> u8 {
    let told = told.ok().expect("answered");
    assert_eq!(told.command, Some(command));
    assert_eq!(told.body.len(), 8);
    assert_eq!(told.body[..3], [0x15, 0x24, 0x00]);
    assert_eq!(told.body[4..], [0x2C, 0x01, 0, 0x18]);
    told.body[3]
}

fn arm_fields(expiry: u8, breadcrumb: u8) -> Vec<u8> {
    vec![0x15, 0x24, 0x00, expiry, 0x24, 0x01, breadcrumb, 0x18]
}

#[test]
fn the_fail_safe_is_armed_held_and_ended() {
    let mut c = general();
    let ctx = over_pase(0);
    assert_eq!(outcome(send(&mut c, general::ID, ARM_FAIL_SAFE, Some(&arm_fields(60, 5)), &ctx), ARM_FAIL_SAFE_RESPONSE), 0);
    assert_eq!(read(&c, general::ID, BREADCRUMB, &ctx), Ok(vec![0x24, 0x00, 5]));
    assert!(c.fail_safe().is_armed(seconds(59)));
    assert!(!c.fail_safe().is_armed(seconds(60)));
    // Another administrator waits.
    assert_eq!(
        outcome(send(&mut c, general::ID, ARM_FAIL_SAFE, Some(&arm_fields(60, 6)), &over_case(1, 1)), ARM_FAIL_SAFE_RESPONSE),
        4
    );
    assert_eq!(c.fail_safe().breadcrumb(), 5);
    // Zero ends it.
    assert_eq!(c.take_aftermath(), None);
    assert_eq!(outcome(send(&mut c, general::ID, ARM_FAIL_SAFE, Some(&arm_fields(0, 6)), &ctx), ARM_FAIL_SAFE_RESPONSE), 0);
    let nothing = Cleanup { fabric_index: None, added: None, updated: None, root_added: false };
    assert_eq!(c.take_aftermath(), Some(Aftermath::Rollback(nothing)));
    assert_eq!(c.take_aftermath(), None);
    assert!(!c.fail_safe().is_armed(seconds(0)));
}

#[test]
fn a_missing_expiry_is_the_default_and_a_torn_command_is_none() {
    let mut c = general();
    let ctx = over_pase(0);
    assert_eq!(outcome(send(&mut c, general::ID, ARM_FAIL_SAFE, Some(&[0x15, 0x24, 0x01, 5, 0x18]), &ctx), ARM_FAIL_SAFE_RESPONSE), 0);
    assert_eq!(c.fail_safe().next_deadline(), Some(seconds(900)));
    let mut c = general();
    for fields in [vec![0x15, 0x24, 0x01, 5], vec![0x15, 0x18], vec![0x16, 0x18], vec![0x15, 0x24, 0x01, 5, 0x24, 0x01, 5, 0x18]] {
        assert_eq!(refusal(send(&mut c, general::ID, ARM_FAIL_SAFE, Some(&fields), &ctx)).status, Status::InvalidCommand);
    }
    let large = [0x15, 0x26, 0x00, 0, 0, 1, 0, 0x24, 0x01, 5, 0x18];
    assert_eq!(refusal(send(&mut c, general::ID, ARM_FAIL_SAFE, Some(&large), &ctx)).status, Status::ConstraintError);
    assert_eq!(refusal(send(&mut c, general::ID, ARM_FAIL_SAFE, None, &ctx)).status, Status::InvalidCommand);
    assert_eq!(refusal(send(&mut c, general::ID, 0x09, None, &ctx)).status, Status::UnsupportedCommand);
    assert!(!c.fail_safe().is_armed(seconds(0)));
}

#[test]
fn an_open_window_goes_before_an_administrator() {
    let node = node();
    let mut windows = AdministratorCommissioning::new(Shared::new(INFO), &node);
    assert!(send(&mut windows, administrator::ID, OPEN_COMMISSIONING_WINDOW, Some(&enhanced()), &over_case(2, 0)).is_ok());
    let mut c = general();
    c.exchange(&mut windows.shared);
    assert!(c.is_window_open(seconds(1)));
    assert_eq!(outcome(send(&mut c, general::ID, ARM_FAIL_SAFE, Some(&arm_fields(60, 6)), &over_case(1, 1)), ARM_FAIL_SAFE_RESPONSE), 4);
    assert_eq!(outcome(send(&mut c, general::ID, ARM_FAIL_SAFE, Some(&arm_fields(60, 6)), &over_pase(1)), ARM_FAIL_SAFE_RESPONSE), 0);
    // A certificate came; the session is now that fabric's, and completing closes the window.
    assert!(c.fail_safe_mut().record(Progress::NocAdded(FabricIndex(3)), seconds(2)));
    assert_eq!(outcome(send(&mut c, general::ID, COMMISSIONING_COMPLETE, None, &over_pase(3)), COMMISSIONING_COMPLETE_RESPONSE), 2);
    assert_eq!(outcome(send(&mut c, general::ID, COMMISSIONING_COMPLETE, None, &over_case(1, 3)), COMMISSIONING_COMPLETE_RESPONSE), 2);
    assert_eq!(c.take_aftermath(), None);
    assert_eq!(outcome(send(&mut c, general::ID, COMMISSIONING_COMPLETE, None, &over_case(3, 3)), COMMISSIONING_COMPLETE_RESPONSE), 0);
    assert_eq!(c.take_aftermath(), Some(Aftermath::Commissioned));
    assert!(!c.is_window_open(seconds(3)));
    assert_eq!(c.fail_safe().breadcrumb(), 0);
    assert_eq!(outcome(send(&mut c, general::ID, COMMISSIONING_COMPLETE, None, &over_case(3, 3)), COMMISSIONING_COMPLETE_RESPONSE), 3);
}

#[test]
fn a_lapsed_fail_safe_is_rolled_back() {
    let mut c = general();
    let (_, _) = c.fail_safe_mut().arm(60, 1, None, seconds(0), false);
    assert!(c.fail_safe_mut().record(Progress::RootAdded, seconds(1)));
    assert!(c.fail_safe_mut().record(Progress::NocAdded(FabricIndex(3)), seconds(1)));
    assert_eq!(outcome(send(&mut c, general::ID, COMMISSIONING_COMPLETE, None, &over_case(3, 60)), COMMISSIONING_COMPLETE_RESPONSE), 3);
    let owed = Cleanup { fabric_index: Some(FabricIndex(3)), added: Some(FabricIndex(3)), updated: None, root_added: true };
    assert_eq!(c.take_aftermath(), Some(Aftermath::Rollback(owed)));
    assert!(!c.fail_safe_mut().record(Progress::RootAdded, seconds(61)));
    // Arming again and again does not go on for ever.
    let mut held = FailSafe::new(INFO);
    let (_, _) = held.arm(800, 1, None, seconds(0), false);
    let (_, _) = held.arm(800, 1, None, seconds(700), false);
    assert_eq!(held.next_deadline(), Some(seconds(900)));
    assert_eq!(held.expire(seconds(899)), None);
    assert!(held.expire(seconds(900)).is_some());
    assert_eq!(held.next_deadline(), None);
}

fn regulatory(config: u8, country: &str, breadcrumb: u8) -> Vec<u8> {
    let mut out = vec![0x15, 0x24, 0x00, config, 0x2C, 0x01, country.len() as u8];
    out.extend_from_slice(country.as_bytes());
    out.extend_from_slice(&[0x24, 0x02, breadcrumb, 0x18]);
    out
}

#[test]
fn the_country_lands_even_where_the_mode_does_not() {
    let mut c = GeneralCommissioning::new(Location::region_agnostic(), RegulatoryLocation::Indoor, Shared::new(INFO));
    let ctx = over_pase(0);
    assert_eq!(c.regulatory_config(), RegulatoryLocation::Indoor);
    let told = send(&mut c, general::ID, SET_REGULATORY_CONFIG, Some(&regulatory(1, "DE", 7)), &ctx);
    assert_eq!(outcome(told, SET_REGULATORY_CONFIG_RESPONSE), 1);
    assert_eq!(c.location.get(), [b'D', b'E']);
    assert_eq!(c.regulatory_config(), RegulatoryLocation::Indoor);
    assert_eq!(c.fail_safe().breadcrumb(), 0);
    let told = send(&mut c, general::ID, SET_REGULATORY_CONFIG, Some(&regulatory(0, "FRA", 7)), &ctx);
    assert_eq!(outcome(told, SET_REGULATORY_CONFIG_RESPONSE), 1);
    assert_eq!(c.location.get(), [b'D', b'E']);
    let told = send(&mut c, general::ID, SET_REGULATORY_CONFIG, Some(&regulatory(0, "FR", 7)), &ctx);
    assert_eq!(outcome(told, SET_REGULATORY_CONFIG_RESPONSE), 0);
    assert_eq!(c.location.get(), [b'F', b'R']);
    assert_eq!(c.fail_safe().breadcrumb(), 7);
    assert_eq!(refusal(send(&mut c, general::ID, SET_REGULATORY_CONFIG, Some(&regulatory(3, "FR", 7)), &ctx)).status, Status::ConstraintError);
    assert_eq!(refusal(send(&mut c, general::ID, SET_REGULATORY_CONFIG, Some(&[0x15, 0x18]), &ctx)).status, Status::InvalidCommand);
    let mut any = general();
    let told = send(&mut any, general::ID, SET_REGULATORY_CONFIG, Some(&regulatory(1, "US", 7)), &ctx);
    assert_eq!(outcome(told, SET_REGULATORY_CONFIG_RESPONSE), 0);
    assert_eq!(read(&any, general::ID, REGULATORY_CONFIG, &ctx), Ok(vec![0x24, 0x00, 1]));
    assert_eq!(read(&any, general::ID, LOCATION_CAPABILITY, &ctx), Ok(vec![0x24, 0x00, 2]));
}

#[test]
fn the_breadcrumb_is_written_and_nothing_else() {
    let mut c = general().without_concurrent_connection();
    let ctx = over_case(1, 0);
    let at = |attribute: AttributeId| Resolved { endpoint: 0, cluster: general::ID, attribute };
    assert!(c.write(&at(BREADCRUMB), &[0x25, 0x02, 0x2C, 0x01], WriteOp::Replace, &ctx).is_ok());
    assert_eq!(read(&c, general::ID, BREADCRUMB, &ctx), Ok(vec![0x25, 0x00, 0x2C, 0x01]));
    assert_eq!(c.write(&at(BREADCRUMB), &[0x29, 0x02], WriteOp::Replace, &ctx), Err(Status::InvalidDataType));
    assert_eq!(c.write(&at(REGULATORY_CONFIG), &[0x24, 0x02, 1], WriteOp::Replace, &ctx), Err(Status::UnsupportedWrite));
    assert_eq!(
        read(&c, general::ID, BASIC_COMMISSIONING_INFO, &ctx),
        Ok(vec![0x35, 0x00, 0x24, 0x00, 60, 0x25, 0x01, 0x84, 0x03, 0x18])
    );
    assert_eq!(read(&c, general::ID, SUPPORTS_CONCURRENT_CONNECTION, &ctx), Ok(vec![0x28, 0x00]));
    assert_eq!(read(&c, general::ID, RECOVERY_IDENTIFIER, &ctx), Err(Status::UnsupportedAttribute));
    assert_eq!(read(&c, general::ID, NETWORK_RECOVERY_REASON, &ctx), Err(Status::UnsupportedAttribute));
    assert_eq!(read(&c, general::ID, 0x0099, &ctx), Err(Status::UnsupportedAttribute));
    assert_eq!(general::cluster().attributes.len(), 5);
    assert_eq!(general::cluster_with_recovery().attributes.len(), 7);
}

#[test]
fn recovery_waits_before_it_announces() {
    let mut r = Recovery::new(99);
    assert!(!r.may_announce(seconds(1000)));
    r.network_lost(seconds(10), NetworkRecoveryReason::Auth);
    r.network_lost(seconds(100), NetworkRecoveryReason::Visibility);
    assert_eq!(r.reason(), Some(NetworkRecoveryReason::Auth));
    assert!(!r.begin_announcing(seconds(129)));
    assert!(!r.is_announcing());
    assert!(r.may_complete(false));
    assert!(r.begin_announcing(seconds(130)));
    assert!(r.is_announcing());
    assert!(!r.may_complete(false));
    assert!(r.may_complete(true));
    let c = general().with_recovery(r);
    let ctx = over_case(1, 0);
    assert_eq!(read(&c, general::ID, RECOVERY_IDENTIFIER, &ctx), Ok(vec![0x24, 0x00, 99]));
    assert_eq!(read(&c, general::ID, NETWORK_RECOVERY_REASON, &ctx), Ok(vec![0x24, 0x00, 1]));
    let mut back = Recovery::new(1);
    back.network_lost(seconds(0), NetworkRecoveryReason::Unspecified);
    assert!(back.begin_announcing(seconds(120)));
    back.network_restored();
    assert_eq!(back.reason(), None);
    assert!(!back.is_announcing());
    assert!(!back.may_announce(seconds(500)));
    let c = general().with_recovery(back);
    assert_eq!(read(&c, general::ID, NETWORK_RECOVERY_REASON, &ctx), Ok(vec![0x34, 0x00]));
}

#[test]
fn a_basic_window_can_be_opened_without_a_command() {
    let node = node();
    let ctx = over_case(2, 10);
    let mut c = AdministratorCommissioning::new(Shared::new(INFO), &node);
    assert_eq!(
        c.open_basic_commissioning_window(180, 0x123, &ctx).map_err(|e| e.status),
        Err(Status::UnsupportedCommand)
    );
    let mut c = c.with_basic();
    assert_eq!(
        c.open_basic_commissioning_window(179, 0x123, &ctx).map_err(|e| e.status),
        Err(Status::InvalidCommand)
    );
    assert_eq!(c.open_basic_commissioning_window(180, 0x123, &ctx), Ok(()));
    assert_eq!(c.shared.window.status(seconds(10)), WindowStatus::BasicOpen);
    assert_eq!(c.open_basic_commissioning_window(180, 0x123, &ctx), Err(AdminStatus::Busy.as_status()));
}
