use matter_clusters::clusters::icd_management::{
    conforming, ClientType, Feature, GrantRequested, IcdManagement, OperatingMode, Registration, StayActive, Timings,
    UserActiveModeTrigger, ACTIVE_MODE_DURATION, ACTIVE_MODE_THRESHOLD, CHECK_IN_PROTOCOL_SUPPORT, CLIENTS_SUPPORTED_PER_FABRIC,
    CUSTOM_INSTRUCTION, DYNAMIC_SIT_LIT_SUPPORT, ICD_COUNTER, ID, IDLE_MODE_DURATION, LONG_IDLE_TIME_SUPPORT,
    MAXIMUM_CHECK_IN_BACKOFF, OPERATING_MODE, POWER_CYCLE, REGISTERED_CLIENTS, REGISTER_CLIENT, REGISTER_CLIENT_RESPONSE,
    RESET_BUTTON_LIGHTS_BLINK, SETUP_BUTTON_SECONDS, STAY_ACTIVE_REQUEST, STAY_ACTIVE_RESPONSE, UNREGISTER_CLIENT,
    USER_ACTIVE_MODE_TRIGGER, USER_ACTIVE_MODE_TRIGGER_HINT, USER_ACTIVE_MODE_TRIGGER_INSTRUCTION,
};
use matter_clusters::conformance::Optional;
use matter_clusters::crypto::SymmetricKey;
use matter_clusters::dm::Privilege;
use matter_clusters::error::ErrorCode;
use matter_clusters::im::{
    AttributeId, ClusterHandler, CommandId, InteractionContext, Lifecycle, Reply, Resolved, ResolvedCommand, Status, StatusIb,
};
use matter_clusters::msg::{FabricIndex, NodeId};
use matter_clusters::platform::Instant;
use matter_clusters::tlv::Tag;

const EVERYTHING: Feature =
    Feature(CHECK_IN_PROTOCOL_SUPPORT | USER_ACTIVE_MODE_TRIGGER | LONG_IDLE_TIME_SUPPORT | DYNAMIC_SIT_LIT_SUPPORT);

/// Two fabrics, with room for two clients each.
type Icd = IcdManagement<'static, 2, 2, 4, GrantRequested>;

fn as_manager(fabric: u8) -> InteractionContext {
    let mut ctx = InteractionContext::new(Some(FabricIndex(fabric)), Instant { micros: 0 });
    ctx.privilege = Some(Privilege::Manage);
    ctx
}

fn as_administrator(fabric: u8) -> InteractionContext {
    let mut ctx = as_manager(fabric);
    ctx.privilege = Some(Privilege::Administer);
    ctx
}

fn send(c: &mut Icd, command: CommandId, fields: Option<&[u8]>, ctx: &InteractionContext) -> Result<Reply, StatusIb> {
    c.perform(&ResolvedCommand { endpoint: 0, cluster: ID, command }, fields, ctx, Tag::Anonymous)
}

fn refusal(r: Result<Reply, StatusIb>) -> Status {
    r.err().expect("refused").status
}

fn read(c: &Icd, attribute: AttributeId, ctx: &InteractionContext) -> Result<Vec<u8>, Status> {
    c.answer(&Resolved { endpoint: 0, cluster: ID, attribute }, ctx, Tag::Context(0))
}

fn register(node: u8, subject: u8, key: u8, verification: Option<u8>, kind: u8) -> Vec<u8> {
    let mut out = vec![0x15, 0x24, 0x00, node, 0x24, 0x01, subject, 0x30, 0x02, 16];
    out.extend_from_slice(&[key; 16]);
    if let Some(verification) = verification {
        out.extend_from_slice(&[0x30, 0x03, 16]);
        out.extend_from_slice(&[verification; 16]);
    }
    out.extend_from_slice(&[0x24, 0x04, kind, 0x18]);
    out
}

fn unregister(node: u8, verification: Option<u8>) -> Vec<u8> {
    let mut out = vec![0x15, 0x24, 0x00, node];
    if let Some(verification) = verification {
        out.extend_from_slice(&[0x30, 0x01, 16]);
        out.extend_from_slice(&[verification; 16]);
    }
    out.push(0x18);
    out
}

fn key(fill: u8) -> SymmetricKey {
    SymmetricKey::new([fill; 16])
}

#[test]
fn a_category_matches_its_version_and_every_later_one() {
    let watched = Registration::new(NodeId(1), 0xFFFF_FFFD_AA12_0002, ClientType::Permanent, FabricIndex(1), key(1));
    assert!(watched.matches_subscriber(NodeId(9), &[0xAA12_0002]));
    assert!(watched.matches_subscriber(NodeId(9), &[0xAA12_0003]));
    assert!(!watched.matches_subscriber(NodeId(9), &[0xAA12_0001]));
    assert!(!watched.matches_subscriber(NodeId(9), &[0xAA13_0002]));
    assert!(!watched.matches_subscriber(NodeId(9), &[]));
    assert!(!watched.matches_subscriber(NodeId(0xFFFF_FFFD_AA12_0002), &[]));
    let node = Registration::new(NodeId(1), 77, ClientType::Ephemeral, FabricIndex(1), key(1));
    assert!(node.matches_subscriber(NodeId(77), &[]));
    assert!(!node.matches_subscriber(NodeId(1), &[77]));
    assert_eq!(node.key().as_bytes(), [1; 16]);
}

#[test]
fn durations_are_compared_and_not_numbers() {
    let plain = Timings::default();
    assert!(plain.is_valid());
    assert_eq!(plain.idle_mode_duration, 1);
    assert_eq!(plain.active_mode_duration, 300);
    assert!(!Timings { active_mode_duration: 5000, ..plain }.is_valid());
    assert!(Timings { active_mode_duration: 1000, ..plain }.is_valid());
    assert!(!Timings { idle_mode_duration: 0, ..plain }.is_valid());
    assert!(!Timings { idle_mode_duration: 2, ..plain }.is_valid());
    assert!(Timings { idle_mode_duration: 64_800, maximum_check_in_backoff: 64_800, ..plain }.is_valid());
    assert!(!Timings { maximum_check_in_backoff: 64_801, ..plain }.is_valid());
}

#[test]
fn a_hint_that_needs_words_gets_them() {
    assert!(UserActiveModeTrigger(CUSTOM_INSTRUCTION).needs_instruction());
    assert!(UserActiveModeTrigger(POWER_CYCLE | SETUP_BUTTON_SECONDS).needs_instruction());
    assert!(!UserActiveModeTrigger(POWER_CYCLE | RESET_BUTTON_LIGHTS_BLINK).needs_instruction());
    let bare = Icd::new(EVERYTHING, Timings::default());
    assert_eq!(bare.with_trigger(UserActiveModeTrigger(SETUP_BUTTON_SECONDS), "").err(), Some(ErrorCode::InvalidArgument));
    let long = "x".repeat(129);
    let long: &'static str = long.leak();
    let bare = Icd::new(EVERYTHING, Timings::default());
    assert_eq!(bare.with_trigger(UserActiveModeTrigger(POWER_CYCLE), long).err(), Some(ErrorCode::InvalidArgument));
    let told = Icd::new(EVERYTHING, Timings::default()).with_trigger(UserActiveModeTrigger(SETUP_BUTTON_SECONDS), "5").ok();
    let told = told.expect("told");
    let ctx = as_manager(1);
    assert_eq!(read(&told, USER_ACTIVE_MODE_TRIGGER_HINT, &ctx), Ok(vec![0x25, 0x00, 0x00, 0x20]));
    assert_eq!(read(&told, USER_ACTIVE_MODE_TRIGGER_INSTRUCTION, &ctx), Ok(vec![0x2C, 0x00, 1, b'5']));
}

#[test]
fn a_client_registers_and_is_told_the_counter() {
    let mut c = Icd::new(EVERYTHING, Timings::default());
    c.restore_counter(300);
    let told = send(&mut c, REGISTER_CLIENT, Some(&register(5, 6, 1, None, 1)), &as_manager(1)).ok().expect("registered");
    assert_eq!(told.command, Some(REGISTER_CLIENT_RESPONSE));
    assert_eq!(told.body, [0x15, 0x25, 0x00, 0x2C, 0x01, 0x18]);
    assert_eq!(c.len_of_fabric(FabricIndex(1)), 1);
    assert_eq!(c.clients()[0].client_type, ClientType::Ephemeral);
    // The key stays here.
    assert_eq!(
        read(&c, REGISTERED_CLIENTS, &as_manager(1)),
        Ok(vec![0x36, 0x00, 0x15, 0x24, 0x01, 5, 0x24, 0x02, 6, 0x24, 0x04, 1, 0x24, 254, 1, 0x18, 0x18])
    );
    assert_eq!(c.next_check_in_counter(), 301);
    assert_eq!(c.counter(), 301);
    c.restore_counter(u32::MAX);
    assert_eq!(c.next_check_in_counter(), 0);
    c.randomize_counter(0xFFFF_FFFF);
    assert_eq!(c.counter(), 0x1000_0000);
    c.randomize_counter(0);
    assert_eq!(read(&c, ICD_COUNTER, &as_manager(1)), Ok(vec![0x24, 0x00, 1]));
}

#[test]
fn a_manager_proves_itself_and_an_administrator_need_not() {
    let mut c = Icd::new(EVERYTHING, Timings::default());
    assert!(send(&mut c, REGISTER_CLIENT, Some(&register(5, 6, 1, None, 0)), &as_manager(1)).is_ok());
    assert_eq!(refusal(send(&mut c, REGISTER_CLIENT, Some(&register(5, 9, 2, None, 0)), &as_manager(1))), Status::Failure);
    assert_eq!(refusal(send(&mut c, REGISTER_CLIENT, Some(&register(5, 9, 2, Some(2), 0)), &as_manager(1))), Status::Failure);
    assert_eq!(c.clients()[0].monitored_subject, 6);
    assert!(send(&mut c, REGISTER_CLIENT, Some(&register(5, 9, 2, Some(1), 1)), &as_manager(1)).is_ok());
    assert_eq!(c.clients()[0].monitored_subject, 9);
    assert_eq!(c.clients()[0].key().as_bytes(), [2; 16]);
    // A key that is wrong is ignored where the caller administers.
    assert!(send(&mut c, REGISTER_CLIENT, Some(&register(5, 10, 3, Some(7), 0)), &as_administrator(1)).is_ok());
    assert_eq!(c.clients()[0].monitored_subject, 10);
    assert_eq!(c.len_of_fabric(FabricIndex(1)), 1);
    // The same node of another fabric is another client.
    assert_eq!(refusal(send(&mut c, UNREGISTER_CLIENT, Some(&unregister(5, Some(3))), &as_manager(2))), Status::NotFound);
    assert_eq!(refusal(send(&mut c, UNREGISTER_CLIENT, Some(&unregister(5, None)), &as_manager(1))), Status::Failure);
    assert_eq!(refusal(send(&mut c, UNREGISTER_CLIENT, Some(&unregister(5, Some(2))), &as_manager(1))), Status::Failure);
    assert!(send(&mut c, UNREGISTER_CLIENT, Some(&unregister(5, Some(3))), &as_manager(1)).is_ok());
    assert!(c.clients().is_empty());
}

#[test]
fn no_fabric_takes_more_than_its_share() {
    let mut c = Icd::new(EVERYTHING, Timings::default());
    for node in [1, 2] {
        assert!(send(&mut c, REGISTER_CLIENT, Some(&register(node, 0, 1, None, 0)), &as_manager(1)).is_ok());
    }
    assert_eq!(refusal(send(&mut c, REGISTER_CLIENT, Some(&register(3, 0, 1, None, 0)), &as_manager(1))), Status::ResourceExhausted);
    for node in [1, 2] {
        assert!(send(&mut c, REGISTER_CLIENT, Some(&register(node, 0, 1, None, 0)), &as_manager(2)).is_ok());
    }
    assert_eq!(read(&c, CLIENTS_SUPPORTED_PER_FABRIC, &as_manager(1)), Ok(vec![0x24, 0x00, 2]));
    let mut ctx = as_manager(1);
    ctx.fabric_filtered = true;
    let own = read(&c, REGISTERED_CLIENTS, &ctx).ok().expect("read");
    ctx.fabric_filtered = false;
    let every = read(&c, REGISTERED_CLIENTS, &ctx).ok().expect("read");
    assert_eq!(own.len() - 3, (every.len() - 3) / 2);
    c.on_lifecycle(Lifecycle::FabricRemoved(FabricIndex(1)));
    assert_eq!(c.len_of_fabric(FabricIndex(1)), 0);
    assert_eq!(c.len_of_fabric(FabricIndex(2)), 2);
}

#[test]
fn commands_are_read_with_care() {
    let mut c = Icd::new(EVERYTHING, Timings::default());
    let nobody = InteractionContext::new(None, Instant { micros: 0 });
    assert_eq!(refusal(send(&mut c, REGISTER_CLIENT, Some(&register(5, 6, 1, None, 0)), &nobody)), Status::UnsupportedAccess);
    assert_eq!(refusal(send(&mut c, UNREGISTER_CLIENT, Some(&unregister(5, None)), &nobody)), Status::UnsupportedAccess);
    let ctx = as_manager(1);
    assert_eq!(refusal(send(&mut c, REGISTER_CLIENT, None, &ctx)), Status::InvalidCommand);
    assert_eq!(refusal(send(&mut c, REGISTER_CLIENT, Some(&[0x15, 0x18]), &ctx)), Status::InvalidCommand);
    assert_eq!(refusal(send(&mut c, REGISTER_CLIENT, Some(&[0x15]), &ctx)), Status::InvalidAction);
    assert_eq!(refusal(send(&mut c, REGISTER_CLIENT, Some(&[0x16, 0x18]), &ctx)), Status::InvalidAction);
    assert_eq!(refusal(send(&mut c, REGISTER_CLIENT, Some(&register(5, 6, 1, None, 2)), &ctx)), Status::ConstraintError);
    let short = [0x15, 0x30, 0x02, 1, 9, 0x18];
    assert_eq!(refusal(send(&mut c, REGISTER_CLIENT, Some(&short), &ctx)), Status::ConstraintError);
    assert_eq!(refusal(send(&mut c, UNREGISTER_CLIENT, Some(&[0x15, 0x18]), &ctx)), Status::InvalidCommand);
    assert_eq!(refusal(send(&mut c, 0x09, None, &ctx)), Status::UnsupportedCommand);
    // What is not known is skipped.
    let mut with_more = register(5, 6, 1, None, 0);
    with_more.pop();
    with_more.extend_from_slice(&[0x35, 0x09, 0x24, 0x00, 1, 0x18, 0x18]);
    assert!(send(&mut c, REGISTER_CLIENT, Some(&with_more), &ctx).is_ok());
}

struct Frugal;

impl StayActive for Frugal {
    fn promise(&self, requested: u32) -> u32 {
        requested.min(100)
    }
}

#[test]
fn staying_active_is_the_devices_promise() {
    let mut c = Icd::new(EVERYTHING, Timings::default());
    let ctx = as_manager(1);
    let told = send(&mut c, STAY_ACTIVE_REQUEST, Some(&[0x15, 0x25, 0x00, 0x2C, 0x01, 0x18]), &ctx).ok().expect("told");
    assert_eq!(told.command, Some(STAY_ACTIVE_RESPONSE));
    assert_eq!(told.body, [0x15, 0x25, 0x00, 0x2C, 0x01, 0x18]);
    assert_eq!(refusal(send(&mut c, STAY_ACTIVE_REQUEST, Some(&[0x15, 0x18]), &ctx)), Status::InvalidCommand);
    let large = [0x15, 0x27, 0x00, 0, 0, 0, 0, 1, 0, 0, 0, 0x18];
    assert_eq!(refusal(send(&mut c, STAY_ACTIVE_REQUEST, Some(&large), &ctx)), Status::ConstraintError);
    let mut frugal: IcdManagement<'_, 1, 1, 1, Frugal> = IcdManagement::with_stay_active(EVERYTHING, Timings::default(), Frugal);
    let command = ResolvedCommand { endpoint: 0, cluster: ID, command: STAY_ACTIVE_REQUEST };
    let told = frugal.perform(&command, Some(&[0x15, 0x25, 0x00, 0x2C, 0x01, 0x18]), &ctx, Tag::Anonymous).ok().expect("told");
    assert_eq!(told.body, [0x15, 0x24, 0x00, 100, 0x18]);
}

#[test]
fn the_mode_holds_while_a_client_relies_on_it() {
    let mut fixed = Icd::new(Feature(CHECK_IN_PROTOCOL_SUPPORT | LONG_IDLE_TIME_SUPPORT), Timings::default());
    assert_eq!(fixed.operating_mode(), OperatingMode::Sit);
    assert!(fixed.set_operating_mode(OperatingMode::Lit).is_ok());
    assert!(fixed.set_operating_mode(OperatingMode::Sit).is_ok());
    assert!(send(&mut fixed, REGISTER_CLIENT, Some(&register(5, 6, 1, None, 0)), &as_manager(1)).is_ok());
    assert_eq!(fixed.set_operating_mode(OperatingMode::Lit), Err(Status::InvalidInState));
    assert_eq!(read(&fixed, OPERATING_MODE, &as_manager(1)), Ok(vec![0x24, 0x00, 0]));
    let mut moving = Icd::new(EVERYTHING, Timings::default());
    assert!(send(&mut moving, REGISTER_CLIENT, Some(&register(5, 6, 1, None, 0)), &as_manager(1)).is_ok());
    assert!(moving.set_operating_mode(OperatingMode::Lit).is_ok());
    assert_eq!(read(&moving, OPERATING_MODE, &as_manager(1)), Ok(vec![0x24, 0x00, 1]));
    let mut short = Icd::new(Feature(CHECK_IN_PROTOCOL_SUPPORT), Timings::default());
    assert_eq!(short.set_operating_mode(OperatingMode::Lit), Err(Status::UnsupportedAttribute));
}

#[test]
fn what_a_feature_adds_is_absent_without_it() {
    let mut plain = Icd::new(Feature(0), Timings::default());
    let ctx = as_manager(1);
    assert_eq!(read(&plain, IDLE_MODE_DURATION, &ctx), Ok(vec![0x24, 0x00, 1]));
    assert_eq!(read(&plain, ACTIVE_MODE_DURATION, &ctx), Ok(vec![0x25, 0x00, 0x2C, 0x01]));
    assert_eq!(read(&plain, ACTIVE_MODE_THRESHOLD, &ctx), Ok(vec![0x25, 0x00, 0x2C, 0x01]));
    for attribute in [
        REGISTERED_CLIENTS, ICD_COUNTER, CLIENTS_SUPPORTED_PER_FABRIC, USER_ACTIVE_MODE_TRIGGER_HINT,
        USER_ACTIVE_MODE_TRIGGER_INSTRUCTION, OPERATING_MODE, MAXIMUM_CHECK_IN_BACKOFF, 0x0099,
    ] {
        assert_eq!(read(&plain, attribute, &ctx), Err(Status::UnsupportedAttribute));
    }
    for command in [REGISTER_CLIENT, UNREGISTER_CLIENT, STAY_ACTIVE_REQUEST] {
        assert_eq!(refusal(send(&mut plain, command, None, &ctx)), Status::UnsupportedCommand);
    }
    let none = Optional { attributes: vec![], commands: vec![], events: vec![] };
    let described = conforming(Feature(0), &none).ok().expect("conforms");
    assert!(described.descriptor().attributes.iter().all(|a| a.id != ICD_COUNTER));
    assert!(described.descriptor().accepted_commands.is_empty());
    let described = conforming(EVERYTHING, &none).ok().expect("conforms");
    assert!(described.descriptor().attributes.iter().any(|a| a.id == ICD_COUNTER));
    assert_eq!(described.descriptor().accepted_commands.len(), 3);
    assert!(conforming(Feature(0x10), &none).is_err());
}

struct Counting {
    asked: std::cell::RefCell<Vec<u32>>,
}

impl StayActive for &Counting {
    fn promise(&self, requested: u32) -> u32 {
        self.asked.borrow_mut().push(requested);
        requested
    }
}

#[test]
fn a_refused_request_asks_the_device_nothing() {
    let device = Counting { asked: std::cell::RefCell::new(Vec::new()) };
    let ctx = as_manager(1);
    let command = ResolvedCommand { endpoint: 0, cluster: ID, command: STAY_ACTIVE_REQUEST };
    let request = [0x15, 0x25, 0x00, 0x2C, 0x01, 0x18];
    let mut brief: IcdManagement<'_, 1, 1, 1, &Counting> =
        IcdManagement::with_stay_active(Feature(CHECK_IN_PROTOCOL_SUPPORT), Timings::default(), &device);
    assert!(brief.perform(&command, Some(&request), &ctx, Tag::Anonymous).is_err());
    let mut long: IcdManagement<'_, 1, 1, 1, &Counting> =
        IcdManagement::with_stay_active(EVERYTHING, Timings::default(), &device);
    assert!(long.perform(&command, None, &ctx, Tag::Anonymous).is_err());
    assert!(long.perform(&command, Some(&[0x15, 0x18]), &ctx, Tag::Anonymous).is_err());
    assert!(device.asked.borrow().is_empty());
    assert!(long.perform(&command, Some(&request), &ctx, Tag::Anonymous).is_ok());
    assert_eq!(*device.asked.borrow(), [300]);
}
