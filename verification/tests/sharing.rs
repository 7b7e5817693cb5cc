use matter_clusters::clusters::administrator_commissioning::{
    self as administrator, AdminStatus, AdministratorCommissioning, AdministratorHooks, ADMIN_FABRIC_INDEX, ADMIN_VENDOR_ID,
    OPEN_BASIC_COMMISSIONING_WINDOW, OPEN_COMMISSIONING_WINDOW, REVOKE_COMMISSIONING, WINDOW_STATUS,
};
use matter_clusters::clusters::basic_information::{self as basic, BasicInformation, Location, Product, LOCATION, NODE_LABEL};
use matter_clusters::clusters::dispatch::{Chain, Compose, Nobody, Routed};
use matter_clusters::clusters::electrical_measurement::topology::{self, PowerTopology, ACTIVE_ENDPOINTS};
use matter_clusters::clusters::general_commissioning::{
    self as general, GeneralCommissioning, RegulatoryLocation, ARM_FAIL_SAFE, BREADCRUMB, COMMISSIONING_COMPLETE,
    SET_REGULATORY_CONFIG,
};
use matter_clusters::clusters::group_key_management::{
    self as management, GroupKeyManagement, GROUP_KEY_MAP, KEY_SET_READ, KEY_SET_READ_RESPONSE, KEY_SET_WRITE,
    MAX_GROUPS_PER_FABRIC,
};
use matter_clusters::clusters::groups::{self as groups, Groups, NeverIdentifying, NoScenes, ADD_GROUP, ADD_GROUP_IF_IDENTIFYING, NAME_SUPPORT};
use matter_clusters::clusters::identify::{self as identify, EffectIdentifierEnum, EffectVariantEnum, Identify, IdentifyHooks, IdentifyTypeEnum, IDENTIFY, IDENTIFY_TIME};
use matter_clusters::clusters::groupcast::{self as groupcast, Groupcast, FEATURE_LISTENER, JOIN_GROUP, LEAVE_GROUP, MEMBERSHIP};
use matter_clusters::clusters::joint_fabric_administrator::{
    self as joint, AnchorTransfer, ICACResponseStatusEnum, JointFabricAdministrator, JointFabricHooks,
    ADMINISTRATOR_FABRIC_INDEX, OPEN_JOINT_COMMISSIONING_WINDOW, TRANSFER_ANCHOR_COMPLETE,
};
use matter_clusters::clusters::sharing::{Commissioning, GroupCommunication, IdentifyingGroups, JointCommissioning};
use matter_clusters::clusters::At;
use matter_clusters::commissioning::{BasicCommissioningInfo, Progress, Shared};
use matter_clusters::dm::Privilege;
use matter_clusters::group::GroupKeys;
use matter_clusters::im::{
    AttributeId, ClusterHandler, ClusterId, CommandId, EndpointId, InteractionContext, Lifecycle, Reply, Resolved,
    ResolvedCommand, Status, StatusIb, WriteOp,
};
use matter_clusters::msg::{FabricIndex, VendorId};
use matter_clusters::platform::Instant;
use matter_clusters::tlv::{Tag, TlvWriter};

const INFO: BasicCommissioningInfo = BasicCommissioningInfo { expiry_length_seconds: 60, max_cumulative_seconds: 900 };

struct Device;

impl AdministratorHooks for Device {
    fn vendor_of_fabric(&self, _fabric: FabricIndex) -> Option<VendorId> {
        None
    }
    fn is_verifier(&self, _verifier: &[u8]) -> bool {
        true
    }
}

impl JointFabricHooks for Device {
    fn write_icac_csr(&self) -> Result<Vec<u8>, Status> {
        Ok(vec![1])
    }
    fn validate_icac(&self, _icac: &[u8], _fabric: FabricIndex) -> ICACResponseStatusEnum {
        ICACResponseStatusEnum::OK
    }
    fn install_icac(&self, _icac: &[u8], _fabric: FabricIndex) -> Result<(), Status> {
        Ok(())
    }
    fn is_verifier(&self, _verifier: &[u8]) -> bool {
        true
    }
    fn anchor_transfer(&self) -> AnchorTransfer {
        AnchorTransfer::Accepted
    }
    fn anchor_transferred(&self) {}
    fn administrator_announced(&self, _endpoint: EndpointId) {}
}

static DEVICE: Device = Device;

fn over_case(fabric: u8, seconds: u64) -> InteractionContext {
    InteractionContext::new(Some(FabricIndex(fabric)), Instant { micros: seconds * 1_000_000 })
}

fn over_pase(seconds: u64) -> InteractionContext {
    InteractionContext::new(None, Instant { micros: seconds * 1_000_000 })
}

fn product<'a>() -> Product<'a> {
    Product::new("Acme", VendorId(0xFFF1), "Light", 0x8000, "unique")
}

type Rest = Chain<PowerTopology<'static>, Nobody>;

fn node<'a>(p: &'a Product<'a>) -> Commissioning<'a, Device, Rest> {
    Commissioning::new(
        BasicInformation::new(p, Location::region_agnostic()),
        GeneralCommissioning::new(Location::new("DE").expect("a region"), RegulatoryLocation::IndoorOutdoor, Shared::new(INFO)),
        AdministratorCommissioning::new(Shared::new(INFO), &DEVICE).with_basic().with_discriminator(0x0ABC),
        (PowerTopology::new(&[4]),).compose(),
    )
}

fn send<C: ClusterHandler>(
    c: &mut C,
    cluster: ClusterId,
    command: CommandId,
    fields: Option<&[u8]>,
    ctx: &InteractionContext,
) -> Result<Reply, StatusIb> {
    c.perform(&ResolvedCommand { endpoint: 0, cluster, command }, fields, ctx, Tag::Anonymous)
}

fn read<C: ClusterHandler>(
    c: &C,
    cluster: ClusterId,
    attribute: AttributeId,
    ctx: &InteractionContext,
) -> Result<Vec<u8>, Status> {
    c.answer(&Resolved { endpoint: 0, cluster, attribute }, ctx, Tag::Context(0))
}

fn write<C: ClusterHandler>(c: &mut C, cluster: ClusterId, attribute: AttributeId, data: &[u8]) -> Result<(), Status> {
    c.write(&Resolved { endpoint: 0, cluster, attribute }, data, WriteOp::Replace, &over_case(1, 0))
}

/// The error that a response of General Commissioning tells.
fn outcome(r: Result<Reply, StatusIb>) -> u8 {
    r.ok().expect("answered").body[3]
}

fn regulatory(config: u8, country: &str) -> Vec<u8> {
    let mut out = vec![0x15, 0x24, 0x00, config, 0x2C, 0x01, country.len() as u8];
    out.extend_from_slice(country.as_bytes());
    out.extend_from_slice(&[0x24, 0x02, 9, 0x18]);
    out
}

fn arm(seconds: u8) -> Vec<u8> {
    vec![0x15, 0x24, 0x00, seconds, 0x24, 0x01, 5, 0x18]
}

fn window() -> Vec<u8> {
    let mut out = vec![0x15, 0x25, 0x00, 180, 0, 0x30, 0x01, 97];
    out.extend_from_slice(&[1; 97]);
    out.extend_from_slice(&[0x25, 0x02, 1, 0, 0x26, 0x03, 0xE8, 0x03, 0, 0, 0x30, 0x04, 16]);
    out.extend_from_slice(&[7; 16]);
    out.push(0x18);
    out
}

const BASIC: [u8; 6] = [0x15, 0x25, 0x00, 180, 0, 0x18];

#[test]
fn a_node_is_in_one_region() {
    let p = product();
    let mut c = node(&p);
    let ctx = over_case(1, 0);
    assert_eq!(read(&c, basic::ID, LOCATION, &ctx), Ok(vec![0x2C, 0x00, 0x02, b'D', b'E']));
    assert_eq!(outcome(send(&mut c, general::ID, SET_REGULATORY_CONFIG, Some(&regulatory(0, "IT")), &ctx)), 0);
    assert_eq!(read(&c, basic::ID, LOCATION, &ctx), Ok(vec![0x2C, 0x00, 0x02, b'I', b'T']));
    assert_eq!(outcome(send(&mut c, general::ID, SET_REGULATORY_CONFIG, Some(&regulatory(0, "ITA")), &ctx)), 1);
    assert_eq!(read(&c, basic::ID, LOCATION, &ctx), Ok(vec![0x2C, 0x00, 0x02, b'I', b'T']));
    assert_eq!(write(&mut c, basic::ID, LOCATION, &[0x2C, 0x01, 0x02, b'F', b'R']), Ok(()));
    assert_eq!(c.general.location.get(), [b'F', b'R']);
    assert_eq!(write(&mut c, basic::ID, NODE_LABEL, &[0x2C, 0x01, 0x01, b'n']), Ok(()));
    assert_eq!(write(&mut c, general::ID, BREADCRUMB, &[0x24, 0x01, 7]), Ok(()));
    assert_eq!(read(&c, general::ID, BREADCRUMB, &ctx), Ok(vec![0x24, 0x00, 7]));
    assert_eq!(c.basic.location.get(), [b'F', b'R']);
    assert_eq!(c.basic.node_label(), "n");
    assert_eq!(write(&mut c, administrator::ID, WINDOW_STATUS, &[0x04, 1]), Err(Status::UnsupportedWrite));
    assert_eq!(read(&c, general::ID, BREADCRUMB, &ctx), Ok(vec![0x24, 0x00, 7]));
}

#[test]
fn a_node_has_one_fail_safe() {
    let p = product();
    let mut c = node(&p);
    let busy = AdminStatus::Busy.as_status();
    assert_eq!(outcome(send(&mut c, general::ID, ARM_FAIL_SAFE, Some(&arm(60)), &over_pase(0))), 0);
    for (command, fields) in [(OPEN_COMMISSIONING_WINDOW, window()), (OPEN_BASIC_COMMISSIONING_WINDOW, BASIC.to_vec())] {
        assert_eq!(send(&mut c, administrator::ID, command, Some(&fields), &over_case(1, 59)).err(), Some(busy));
    }
    assert_eq!(read(&c, administrator::ID, WINDOW_STATUS, &over_case(1, 59)), Ok(vec![0x24, 0x00, 0]));
    assert!(c.general.fail_safe().is_armed(Instant { micros: 59_000_000 }));
    // It has lapsed.
    assert!(send(&mut c, administrator::ID, OPEN_BASIC_COMMISSIONING_WINDOW, Some(&BASIC), &over_case(1, 60)).is_ok());
    assert_eq!(c.general.shared.window.open(Instant { micros: 60_000_000 }).expect("open").discriminator, 0x0ABC);
}

#[test]
fn a_node_has_one_window() {
    let p = product();
    let mut c = node(&p);
    assert!(send(&mut c, administrator::ID, OPEN_COMMISSIONING_WINDOW, Some(&window()), &over_case(1, 0)).is_ok());
    assert_eq!(read(&c, administrator::ID, WINDOW_STATUS, &over_case(1, 1)), Ok(vec![0x24, 0x00, 1]));
    assert_eq!(read(&c, administrator::ID, ADMIN_FABRIC_INDEX, &over_case(1, 1)), Ok(vec![0x24, 0x00, 1]));
    assert!(c.general.is_window_open(Instant { micros: 1_000_000 }));
    // The window is for the commissioner that comes with its passcode.
    assert_eq!(outcome(send(&mut c, general::ID, ARM_FAIL_SAFE, Some(&arm(60)), &over_case(1, 1))), 4);
    assert_eq!(outcome(send(&mut c, general::ID, ARM_FAIL_SAFE, Some(&arm(60)), &over_pase(1))), 0);
    assert!(c.general.fail_safe_mut().record(Progress::NocAdded(FabricIndex(3)), Instant { micros: 2_000_000 }));
    assert_eq!(outcome(send(&mut c, general::ID, COMMISSIONING_COMPLETE, None, &over_case(3, 3))), 0);
    assert_eq!(read(&c, administrator::ID, WINDOW_STATUS, &over_case(1, 3)), Ok(vec![0x24, 0x00, 0]));
    assert_eq!(read(&c, administrator::ID, ADMIN_FABRIC_INDEX, &over_case(1, 3)), Ok(vec![0x34, 0x00]));
    assert_eq!(read(&c, administrator::ID, ADMIN_VENDOR_ID, &over_case(1, 3)), Ok(vec![0x34, 0x00]));
    assert!(c.general.shared.window.window.is_none());
}

#[test]
fn revoking_a_window_ends_the_fail_safe_behind_it() {
    let p = product();
    let mut c = node(&p);
    assert!(send(&mut c, administrator::ID, OPEN_COMMISSIONING_WINDOW, Some(&window()), &over_case(1, 0)).is_ok());
    assert_eq!(outcome(send(&mut c, general::ID, ARM_FAIL_SAFE, Some(&arm(60)), &over_pase(1))), 0);
    assert!(send(&mut c, administrator::ID, REVOKE_COMMISSIONING, None, &over_case(1, 2)).is_ok());
    assert!(!c.general.fail_safe().is_armed(Instant { micros: 2_000_000 }));
    assert!(!c.general.is_window_open(Instant { micros: 2_000_000 }));
    assert_eq!(read(&c, general::ID, BREADCRUMB, &over_case(1, 2)), Ok(vec![0x24, 0x00, 0]));
}

#[test]
fn every_other_cluster_is_answered_by_the_rest() {
    let p = product();
    let mut c = node(&p);
    let ctx = over_case(1, 0);
    assert_eq!(read(&c, topology::ID, ACTIVE_ENDPOINTS, &ctx), Ok(vec![0x36, 0x00, 0x04, 4, 0x18]));
    assert_eq!(read(&c, 0x7777, 0, &ctx), Err(Status::UnsupportedCluster));
    assert_eq!(write(&mut c, 0x7777, 0, &[]), Err(Status::UnsupportedCluster));
    assert_eq!(send(&mut c, 0x7777, 0, None, &ctx).err().expect("refused").status, Status::UnsupportedCluster);
    assert_eq!(send(&mut c, basic::ID, 0, None, &ctx).err().expect("refused").status, Status::UnsupportedCommand);
    assert_eq!(c.data_version(&Resolved { endpoint: 0, cluster: general::ID, attribute: 0 }), None);
    c.on_lifecycle(Lifecycle::FabricRemoved(FabricIndex(1)));
    // What does not fit is told as the cluster tells it.
    let mut w = TlvWriter::new(2);
    let complete = ResolvedCommand { endpoint: 0, cluster: general::ID, command: COMMISSIONING_COMPLETE };
    let told = c.invoke(&complete, None, &ctx, &mut w, Tag::Anonymous);
    assert_eq!(told.err().map(|s| s.status), Some(Status::ResourceExhausted));
    let mut w = TlvWriter::new(64);
    assert_eq!(c.invoke(&complete, None, &ctx, &mut w, Tag::Anonymous), Ok(Some(general::COMMISSIONING_COMPLETE_RESPONSE)));
    assert_eq!(w.finish(), [0x15, 0x24, 0x00, 3, 0x2C, 0x01, 0, 0x18]);
    let unknown = ResolvedCommand { endpoint: 0, cluster: 0x7777, command: 0 };
    let told = c.invoke(&unknown, None, &ctx, &mut TlvWriter::new(8), Tag::Anonymous);
    assert_eq!(told.err().map(|s| s.status), Some(Status::UnsupportedCluster));
}

#[test]
fn the_clusters_of_commissioning_stand_on_an_endpoint() {
    let p = product();
    let mut c = (At::new(0, node(&p)), At::new(1, (PowerTopology::new(&[5]),).compose())).endpoints();
    let ctx = over_case(1, 0);
    assert_eq!(outcome(send(&mut c, general::ID, SET_REGULATORY_CONFIG, Some(&regulatory(0, "IT")), &ctx)), 0);
    assert_eq!(read(&c, basic::ID, LOCATION, &ctx), Ok(vec![0x2C, 0x00, 0x02, b'I', b'T']));
}

#[test]
fn a_joint_window_is_the_nodes_window() {
    let p = product();
    let mut administers = JointFabricAdministrator::new(&DEVICE, Shared::new(INFO));
    administers.set_administrator_fabric(Some(FabricIndex(1)));
    let mut c = JointCommissioning::new(node(&p), administers);
    let open = |c: &mut JointCommissioning<'_, Device, Device, Rest>, seconds: u64| {
        send(c, joint::ID, OPEN_JOINT_COMMISSIONING_WINDOW, Some(&window()), &over_case(1, seconds))
    };
    assert_eq!(read(&c, joint::ID, ADMINISTRATOR_FABRIC_INDEX, &over_case(1, 0)), Ok(vec![0x24, 0x00, 1]));
    assert_eq!(outcome(send(&mut c, general::ID, ARM_FAIL_SAFE, Some(&arm(60)), &over_pase(0))), 0);
    assert_eq!(open(&mut c, 59).err(), Some(AdminStatus::Busy.as_status()));
    assert!(open(&mut c, 60).is_ok());
    assert_eq!(read(&c, administrator::ID, WINDOW_STATUS, &over_case(1, 61)), Ok(vec![0x24, 0x00, 1]));
    assert!(send(&mut c, administrator::ID, REVOKE_COMMISSIONING, None, &over_case(1, 62)).is_ok());
    assert_eq!(read(&c, administrator::ID, WINDOW_STATUS, &over_case(1, 62)), Ok(vec![0x24, 0x00, 0]));
    assert_eq!(write(&mut c, joint::ID, ADMINISTRATOR_FABRIC_INDEX, &[0x04, 2]), Err(Status::UnsupportedWrite));
    assert!(send(&mut c, joint::ID, TRANSFER_ANCHOR_COMPLETE, None, &over_case(1, 63)).is_ok());
    assert_eq!(read(&c, joint::ID, ADMINISTRATOR_FABRIC_INDEX, &over_case(1, 63)), Ok(vec![0x34, 0x00]));
    assert_eq!(outcome(send(&mut c, general::ID, SET_REGULATORY_CONFIG, Some(&regulatory(0, "IT")), &over_case(1, 63))), 0);
    assert_eq!(read(&c, basic::ID, LOCATION, &over_case(1, 63)), Ok(vec![0x2C, 0x00, 0x02, b'I', b'T']));
    c.on_lifecycle(Lifecycle::FabricRemoved(FabricIndex(1)));
    let mut w = TlvWriter::new(64);
    let unknown = ResolvedCommand { endpoint: 0, cluster: joint::ID, command: 0x70 };
    let told = c.invoke(&unknown, None, &over_case(1, 64), &mut w, Tag::Anonymous);
    assert_eq!(told.err().map(|s| s.status), Some(Status::UnsupportedCommand));
    let complete = ResolvedCommand { endpoint: 0, cluster: general::ID, command: COMMISSIONING_COMPLETE };
    let told = c.invoke(&complete, None, &over_case(1, 64), &mut TlvWriter::new(2), Tag::Anonymous);
    assert_eq!(told.err().map(|s| s.status), Some(Status::ResourceExhausted));
    assert_eq!(c.data_version(&Resolved { endpoint: 0, cluster: joint::ID, attribute: 0 }), None);
}

type Grouped = GroupCommunication<'static, (), Nobody, 4, 3, 4, 6>;

fn grouped() -> Grouped {
    let keys: GroupKeys<4, 6> = GroupKeys::new(3, 4);
    GroupCommunication::new(Groupcast::new(keys, FEATURE_LISTENER), GroupKeyManagement::new(GroupKeys::new(1, 1), &()), Nobody)
}

fn admin(fabric: u8) -> InteractionContext {
    let mut ctx = over_case(fabric, 0);
    ctx.privilege = Some(Privilege::Administer);
    ctx.fabric_filtered = true;
    ctx
}

fn key_set(id: u8) -> Vec<u8> {
    let mut out = vec![0x15, 0x35, 0x00, 0x24, 0x00, id, 0x24, 0x01, 0x00, 0x30, 0x02, 16];
    out.extend_from_slice(&[7; 16]);
    out.extend_from_slice(&[0x24, 0x03, 1, 0x34, 0x04, 0x34, 0x05, 0x34, 0x06, 0x34, 0x07, 0x18, 0x18]);
    out
}

fn join(group: u8, key_set: u8, key: Option<u8>) -> Vec<u8> {
    let mut out = vec![0x15, 0x24, 0x00, group, 0x36, 0x01, 0x04, 1, 0x18, 0x24, 0x02, key_set];
    if let Some(octet) = key {
        out.extend_from_slice(&[0x30, 0x03, 16]);
        out.extend_from_slice(&[octet; 16]);
    }
    out.push(0x18);
    out
}

#[test]
fn a_node_has_one_table_of_group_keys() {
    let mut c = grouped();
    let ctx = admin(1);
    assert_eq!(read(&c, management::ID, MAX_GROUPS_PER_FABRIC, &ctx), Ok(vec![0x24, 0x00, 4]));
    // A key set that was written secures a group that is joined.
    assert_eq!(send(&mut c, groupcast::ID, JOIN_GROUP, Some(&join(7, 5, None)), &ctx).err().expect("no key").status, Status::NotFound);
    assert!(send(&mut c, management::ID, KEY_SET_WRITE, Some(&key_set(5)), &ctx).is_ok());
    assert!(send(&mut c, groupcast::ID, JOIN_GROUP, Some(&join(7, 5, None)), &ctx).is_ok());
    assert_eq!(
        read(&c, management::ID, GROUP_KEY_MAP, &ctx),
        Ok(vec![0x36, 0x00, 0x15, 0x24, 0x01, 0x07, 0x24, 0x02, 0x05, 0x24, 0xFE, 0x01, 0x18, 0x18])
    );
    // A key set that came with a group can be read.
    assert!(send(&mut c, groupcast::ID, JOIN_GROUP, Some(&join(8, 6, Some(9))), &ctx).is_ok());
    let told = send(&mut c, management::ID, KEY_SET_READ, Some(&[0x15, 0x24, 0x00, 6, 0x18]), &ctx).ok().expect("there");
    assert_eq!(told.command, Some(KEY_SET_READ_RESPONSE));
    assert_eq!(&told.body[..6], &[0x15, 0x35, 0x00, 0x24, 0x00, 6]);
    assert!(send(&mut c, groupcast::ID, LEAVE_GROUP, Some(&[0x15, 0x24, 0x00, 8, 0x18]), &ctx).is_ok());
    let gone = send(&mut c, management::ID, KEY_SET_READ, Some(&[0x15, 0x24, 0x00, 6, 0x18]), &ctx);
    assert_eq!(gone.err().expect("gone").status, Status::NotFound);
    // A map that is written is the one that Groupcast works on.
    assert_eq!(
        c.write(&Resolved { endpoint: 0, cluster: management::ID, attribute: GROUP_KEY_MAP }, &[0x16, 0x18], WriteOp::Replace, &ctx),
        Ok(())
    );
    assert!(c.cast.keys.map().is_empty());
    assert_eq!(write(&mut c, groupcast::ID, MEMBERSHIP, &[0x16, 0x18]), Err(Status::UnsupportedWrite));
}

#[test]
fn a_fabric_that_leaves_takes_its_groups_and_keys_along() {
    let mut c = grouped();
    assert!(send(&mut c, groupcast::ID, JOIN_GROUP, Some(&join(7, 5, Some(9))), &admin(1)).is_ok());
    assert!(send(&mut c, groupcast::ID, JOIN_GROUP, Some(&join(7, 5, Some(9))), &admin(2)).is_ok());
    c.on_lifecycle(Lifecycle::FabricRemoved(FabricIndex(1)));
    assert_eq!(c.cast.memberships().len(), 1);
    assert_eq!(c.cast.memberships()[0].fabric_index, FabricIndex(2));
    assert_eq!(c.cast.keys.key_sets().len(), 1);
    assert_eq!(c.cast.keys.map().len(), 1);
    assert_eq!(read(&c, management::ID, GROUP_KEY_MAP, &admin(1)), Ok(vec![0x36, 0x00, 0x18]));
    assert_eq!(read(&c, 0x7777, 0, &admin(1)), Err(Status::UnsupportedCluster));
    assert_eq!(c.data_version(&Resolved { endpoint: 0, cluster: groupcast::ID, attribute: 0 }), None);
    let mut w = TlvWriter::new(64);
    let indices = ResolvedCommand { endpoint: 0, cluster: management::ID, command: management::KEY_SET_READ_ALL_INDICES };
    assert_eq!(
        c.invoke(&indices, None, &admin(2), &mut w, Tag::Anonymous),
        Ok(Some(management::KEY_SET_READ_ALL_INDICES_RESPONSE))
    );
    assert_eq!(w.finish(), [0x15, 0x36, 0x00, 0x04, 5, 0x18, 0x18]);
    let told = c.invoke(&indices, None, &admin(2), &mut TlvWriter::new(2), Tag::Anonymous);
    assert_eq!(told.err().map(|s| s.status), Some(Status::Failure));
}

impl IdentifyHooks for &Device {
    fn identifying(&mut self, _on: bool) {}
    fn trigger_effect(&mut self, _effect: EffectIdentifierEnum, _variant: EffectVariantEnum) {}
}

#[test]
fn a_group_is_added_while_the_endpoint_identifies_itself() {
    let table: Groups<4, NeverIdentifying, NoScenes> = Groups::with(4, true, NeverIdentifying, NoScenes::new());
    let mut c = IdentifyingGroups::new(Identify::new(&DEVICE, IdentifyTypeEnum::LightOutput), table, Nobody);
    let ctx = over_case(1, 0);
    let named = [0x15, 0x24, 0x00, 7, 0x2C, 0x01, 0x01, b'k', 0x18];
    assert_eq!(read(&c, groups::ID, NAME_SUPPORT, &ctx), Ok(vec![0x24, 0x00, 0x80]));
    assert!(send(&mut c, groups::ID, ADD_GROUP_IF_IDENTIFYING, Some(&named), &ctx).is_ok());
    assert!(c.table.memberships.as_slice().is_empty());
    assert!(send(&mut c, identify::ID, IDENTIFY, Some(&[0x15, 0x24, 0x00, 9, 0x18]), &ctx).is_ok());
    assert_eq!(read(&c, identify::ID, IDENTIFY_TIME, &ctx), Ok(vec![0x24, 0x00, 9]));
    assert!(send(&mut c, groups::ID, ADD_GROUP_IF_IDENTIFYING, Some(&named), &ctx).is_ok());
    assert_eq!(c.table.memberships.as_slice().len(), 1);
    assert_eq!(write(&mut c, identify::ID, IDENTIFY_TIME, &[0x04, 0]), Ok(()));
    let other = [0x15, 0x24, 0x00, 8, 0x2C, 0x01, 0x01, b'l', 0x18];
    assert!(send(&mut c, groups::ID, ADD_GROUP_IF_IDENTIFYING, Some(&other), &ctx).is_ok());
    assert_eq!(c.table.memberships.as_slice().len(), 1);
    assert!(send(&mut c, groups::ID, ADD_GROUP, Some(&other), &over_case(2, 0)).is_ok());
    c.on_lifecycle(Lifecycle::FabricRemoved(FabricIndex(1)));
    assert_eq!(c.table.memberships.as_slice().len(), 1);
    assert_eq!(write(&mut c, groups::ID, NAME_SUPPORT, &[0x04, 0]), Err(Status::UnsupportedWrite));
    assert_eq!(read(&c, 0x7777, 0, &ctx), Err(Status::UnsupportedCluster));
    assert_eq!(c.data_version(&Resolved { endpoint: 0, cluster: groups::ID, attribute: 0 }), None);
    let add = ResolvedCommand { endpoint: 0, cluster: groups::ID, command: ADD_GROUP };
    let told = c.invoke(&add, Some(&named), &ctx, &mut TlvWriter::new(2), Tag::Anonymous);
    assert_eq!(told.err().map(|s| s.status), Some(Status::Failure));
}
