use std::cell::{Cell, RefCell};

use matter_clusters::bounded::Text;
use matter_clusters::clusters::joint_fabric_administrator::{
    self as administrator, AnchorTransfer, ICACResponseStatusEnum, JointFabricAdministrator, JointFabricHooks, ADD_ICAC,
    ADMINISTRATOR_FABRIC_INDEX, ANNOUNCE_JOINT_FABRIC_ADMINISTRATOR, ICACCSR_REQUEST, ICACCSR_RESPONSE, ICAC_RESPONSE,
    OPEN_JOINT_COMMISSIONING_WINDOW, TRANSFER_ANCHOR_COMPLETE, TRANSFER_ANCHOR_REQUEST, TRANSFER_ANCHOR_RESPONSE,
};
use matter_clusters::clusters::joint_fabric_datastore::{
    self as datastore, AdminEntry, Datastore, DatastoreAccessControlEntryPrivilegeEnum, DatastoreStateEnum, GroupEntry,
    JointFabricDatastore, StatusEntry, ADD_ADMIN, ADD_GROUP, ADD_GROUP_ID_TO_ENDPOINT_FOR_NODE, ADD_KEY_SET, ADD_PENDING_NODE,
    ADMIN_LIST, ANCHOR_NODE_ID, ANCHOR_ROOT_CA, ANCHOR_VENDOR_ID, ENDPOINT_GROUP_ID_LIST, FRIENDLY_NAME, GROUP_KEY_SET_LIST, GROUP_LIST,
    NODE_KEY_SET_LIST, NODE_LIST, REFRESH_NODE, REMOVE_ADMIN, REMOVE_GROUP, REMOVE_GROUP_ID_FROM_ENDPOINT_FOR_NODE, REMOVE_KEY_SET,
    REMOVE_NODE, UPDATE_NODE,
};
use matter_clusters::commissioning::{BasicCommissioningInfo, Shared, WindowStatus};
use matter_clusters::im::{
    AttributeId, ClusterHandler, ClusterId, CommandId, InteractionContext, Reply, Resolved, ResolvedCommand, Status, StatusIb,
};
use matter_clusters::msg::{FabricIndex, GroupId, NodeId, VendorId};
use matter_clusters::platform::Instant;
use matter_clusters::tlv::Tag;

const INFO: BasicCommissioningInfo = BasicCommissioningInfo { expiry_length_seconds: 60, max_cumulative_seconds: 900 };

fn seconds(n: u64) -> Instant {
    Instant { micros: n * 1_000_000 }
}

fn context(fabric: u8, verified: bool) -> InteractionContext {
    let mut ctx = InteractionContext::new(Some(FabricIndex(fabric)), seconds(5));
    ctx.vendor_id_verified = verified;
    ctx
}

fn send<C: ClusterHandler>(
    c: &mut C,
    cluster: ClusterId,
    command: CommandId,
    fields: Option<&[u8]>,
    ctx: &InteractionContext,
) -> Result<Reply, StatusIb> {
    c.perform(&ResolvedCommand { endpoint: 0, cluster, command }, fields, ctx, Tag::Anonymous)
}

fn refusal(r: Result<Reply, StatusIb>) -> StatusIb {
    r.err().expect("refused")
}

fn read<C: ClusterHandler>(c: &C, cluster: ClusterId, attribute: AttributeId) -> Result<Vec<u8>, Status> {
    c.answer(&Resolved { endpoint: 0, cluster, attribute }, &context(1, false), Tag::Context(0))
}

struct Ecosystem {
    csr: RefCell<Result<Vec<u8>, Status>>,
    verdict: Cell<ICACResponseStatusEnum>,
    made: Cell<u32>,
    done: RefCell<Vec<String>>,
}

impl Ecosystem {
    fn new() -> Self {
        Ecosystem { csr: RefCell::new(Ok(vec![1, 2, 3])), verdict: Cell::new(ICACResponseStatusEnum::OK), made: Cell::new(0), done: RefCell::new(Vec::new()) }
    }
}

impl JointFabricHooks for Ecosystem {
    fn write_icac_csr(&self) -> Result<Vec<u8>, Status> {
        self.made.set(self.made.get() + 1);
        self.csr.borrow().clone()
    }
    fn validate_icac(&self, icac: &[u8], fabric: FabricIndex) -> ICACResponseStatusEnum {
        self.done.borrow_mut().push(format!("validate {} {}", icac.len(), fabric.0));
        self.verdict.get()
    }
    fn install_icac(&self, icac: &[u8], fabric: FabricIndex) -> Result<(), Status> {
        self.done.borrow_mut().push(format!("install {} {}", icac.len(), fabric.0));
        Ok(())
    }
    fn is_verifier(&self, verifier: &[u8]) -> bool {
        verifier[0] != 0xFF
    }
    fn anchor_transferred(&self) {
        self.done.borrow_mut().push("transferred".to_string());
    }
    fn administrator_announced(&self, endpoint: u16) {
        self.done.borrow_mut().push(format!("announced {}", endpoint));
    }
}

/// A cluster within an armed fail-safe.
fn armed(hooks: &Ecosystem) -> JointFabricAdministrator<'_, Ecosystem> {
    let mut shared = Shared::new(INFO);
    let (_, _) = shared.fail_safe.arm(60, 0, Some(FabricIndex(1)), seconds(0), false);
    JointFabricAdministrator::new(hooks, shared)
}

const ICAC: [u8; 6] = [0x15, 0x30, 0x01, 1, 9, 0x18];

#[test]
fn a_signing_request_has_conditions() {
    let hooks = Ecosystem::new();
    let mut c = JointFabricAdministrator::new(&hooks, Shared::new(INFO));
    let told = send(&mut c, administrator::ID, ICACCSR_REQUEST, None, &context(1, true)).ok().expect("told");
    assert_eq!(told.command, Some(ICACCSR_RESPONSE));
    // No fail-safe; then no verified vendor; then no fabric.
    assert_eq!(told.body, [0x15, 0x24, 0x00, 2, 0x18]);
    let mut c = armed(&hooks);
    let told = send(&mut c, administrator::ID, ICACCSR_REQUEST, None, &context(1, false)).ok().expect("told");
    assert_eq!(told.body, [0x15, 0x24, 0x00, 5, 0x18]);
    let told = send(&mut c, administrator::ID, ICACCSR_REQUEST, None, &context(1, true)).ok().expect("told");
    assert_eq!(told.body, [0x15, 0x24, 0x00, 6, 0x18]);
    assert_eq!(read(&c, administrator::ID, ADMINISTRATOR_FABRIC_INDEX), Ok(vec![0x34, 0x00]));
    c.set_administrator_fabric(Some(FabricIndex(1)));
    assert_eq!(read(&c, administrator::ID, ADMINISTRATOR_FABRIC_INDEX), Ok(vec![0x24, 0x00, 1]));
    let told = send(&mut c, administrator::ID, ICACCSR_REQUEST, None, &context(1, true)).ok().expect("told");
    assert_eq!(told.body, [0x15, 0x24, 0x00, 0, 0x30, 0x01, 3, 1, 2, 3, 0x18]);
    *hooks.csr.borrow_mut() = Err(Status::Busy);
    assert_eq!(refusal(send(&mut c, administrator::ID, ICACCSR_REQUEST, None, &context(1, true))).status, Status::Busy);
    *hooks.csr.borrow_mut() = Ok(vec![0; 601]);
    assert_eq!(refusal(send(&mut c, administrator::ID, ICACCSR_REQUEST, None, &context(1, true))).status, Status::Failure);
    assert_eq!(read(&c, administrator::ID, 1), Err(Status::UnsupportedAttribute));
}

#[test]
fn a_certificate_answers_its_own_request_once() {
    let hooks = Ecosystem::new();
    let mut c = armed(&hooks);
    c.set_administrator_fabric(Some(FabricIndex(9)));
    let ctx = context(1, true);
    let told = send(&mut c, administrator::ID, ADD_ICAC, Some(&ICAC), &ctx).ok().expect("told");
    // Nothing was asked for.
    assert_eq!(told.command, Some(ICAC_RESPONSE));
    assert_eq!(told.body, [0x15, 0x24, 0x00, 1, 0x18]);
    assert!(send(&mut c, administrator::ID, ICACCSR_REQUEST, None, &ctx).is_ok());
    let told = send(&mut c, administrator::ID, ADD_ICAC, Some(&ICAC), &context(2, true)).ok().expect("told");
    assert_eq!(told.body, [0x15, 0x24, 0x00, 1, 0x18]);
    hooks.verdict.set(ICACResponseStatusEnum::InvalidICAC);
    let told = send(&mut c, administrator::ID, ADD_ICAC, Some(&ICAC), &ctx).ok().expect("told");
    assert_eq!(told.body, [0x15, 0x24, 0x00, 2, 0x18]);
    assert_eq!(c.administrator_fabric(), Some(FabricIndex(9)));
    hooks.verdict.set(ICACResponseStatusEnum::OK);
    let told = send(&mut c, administrator::ID, ADD_ICAC, Some(&ICAC), &ctx).ok().expect("told");
    assert_eq!(told.body, [0x15, 0x24, 0x00, 0, 0x18]);
    assert_eq!(c.administrator_fabric(), Some(FabricIndex(1)));
    assert_eq!(*hooks.done.borrow(), ["validate 1 1", "validate 1 1", "install 1 1"]);
    // One within a fail-safe.
    assert_eq!(refusal(send(&mut c, administrator::ID, ADD_ICAC, Some(&ICAC), &ctx)).status, Status::ConstraintError);
    assert_eq!(refusal(send(&mut c, administrator::ID, ICACCSR_REQUEST, None, &ctx)).status, Status::ConstraintError);
    c.reset_fail_safe_state();
    assert!(send(&mut c, administrator::ID, ICACCSR_REQUEST, None, &ctx).is_ok());
}

#[test]
fn a_certificate_needs_a_fabric_and_a_fail_safe() {
    let hooks = Ecosystem::new();
    let mut c = armed(&hooks);
    let nobody = InteractionContext::new(None, seconds(5));
    assert_eq!(refusal(send(&mut c, administrator::ID, ADD_ICAC, Some(&ICAC), &nobody)).status, Status::InvalidCommand);
    assert_eq!(refusal(send(&mut c, administrator::ID, ADD_ICAC, Some(&ICAC), &context(0, true))).status, Status::InvalidCommand);
    assert_eq!(refusal(send(&mut c, administrator::ID, ADD_ICAC, None, &context(1, true))).status, Status::InvalidCommand);
    let mut long = vec![0x15, 0x31, 0x01, 0x91, 0x01];
    long.extend_from_slice(&[0; 401]);
    long.push(0x18);
    assert_eq!(refusal(send(&mut c, administrator::ID, ADD_ICAC, Some(&long), &context(1, true))).status, Status::ConstraintError);
    let mut c = JointFabricAdministrator::new(&hooks, Shared::new(INFO));
    assert_eq!(refusal(send(&mut c, administrator::ID, ADD_ICAC, Some(&ICAC), &context(1, true))).status, Status::FailsafeRequired);
    assert!(hooks.done.borrow().is_empty());
}

#[test]
fn a_joint_window_is_an_enhanced_one() {
    let hooks = Ecosystem::new();
    let mut c = JointFabricAdministrator::new(&hooks, Shared::new(INFO));
    let mut fields = vec![0x15, 0x25, 0x00, 180, 0, 0x30, 0x01, 97];
    fields.extend_from_slice(&[1; 97]);
    fields.extend_from_slice(&[0x25, 0x02, 1, 0, 0x25, 0x03, 0xE8, 0x03, 0x30, 0x04, 16]);
    fields.extend_from_slice(&[7; 16]);
    fields.push(0x18);
    let refused = refusal(send(&mut c, administrator::ID, OPEN_JOINT_COMMISSIONING_WINDOW, Some(&fields), &context(1, true)));
    assert_eq!((refused.status, refused.cluster_status), (Status::Failure, Some(6)));
    c.set_administrator_fabric(Some(FabricIndex(1)));
    assert!(send(&mut c, administrator::ID, OPEN_JOINT_COMMISSIONING_WINDOW, Some(&fields), &context(1, true)).is_ok());
    let window = c.shared.window.open(seconds(5)).expect("open");
    assert_eq!(window.status, WindowStatus::EnhancedOpen);
    assert_eq!((window.admin_fabric, window.admin_vendor), (Some(FabricIndex(1)), None));
    let refused = refusal(send(&mut c, administrator::ID, OPEN_JOINT_COMMISSIONING_WINDOW, Some(&fields), &context(1, true)));
    assert_eq!(refused.cluster_status, Some(2));
}

#[test]
fn the_anchor_role_is_not_given_up_unasked() {
    let hooks = Ecosystem::new();
    let mut c = armed(&hooks);
    c.set_administrator_fabric(Some(FabricIndex(1)));
    assert_eq!(hooks.anchor_transfer(), AnchorTransfer::Refused(administrator::TransferAnchorResponseStatusEnum::TransferAnchorStatusNoUserConsent));
    let told = send(&mut c, administrator::ID, TRANSFER_ANCHOR_REQUEST, None, &context(1, true)).ok().expect("told");
    assert_eq!(told.command, Some(TRANSFER_ANCHOR_RESPONSE));
    assert_eq!(told.body, [0x15, 0x24, 0x00, 2, 0x18]);
    assert!(send(&mut c, administrator::ID, TRANSFER_ANCHOR_COMPLETE, None, &context(1, true)).is_ok());
    assert_eq!(c.administrator_fabric(), None);
    let announced = [0x15, 0x24, 0x00, 4, 0x18];
    assert!(send(&mut c, administrator::ID, ANNOUNCE_JOINT_FABRIC_ADMINISTRATOR, Some(&announced), &context(1, true)).is_ok());
    assert_eq!(*hooks.done.borrow(), ["transferred", "announced 4"]);
    assert_eq!(refusal(send(&mut c, administrator::ID, 0x44, None, &context(1, true))).status, Status::UnsupportedCommand);
}

/// Two of everything, and three memberships.
type Store = Datastore<2, 2, 2, 2, 3>;

fn name(s: &str) -> Text<32> {
    Text::copy_of(s).expect("short")
}

fn group(id: u16, key_set: Option<u16>, cat: Option<u16>) -> GroupEntry {
    GroupEntry {
        group: GroupId(id),
        friendly_name: name("g"),
        key_set,
        cat,
        cat_version: Some(1),
        permission: DatastoreAccessControlEntryPrivilegeEnum::Operate,
    }
}

#[test]
fn a_key_set_stays_while_a_node_holds_it() {
    let mut s = Store::new();
    assert_eq!(s.add_key_set(0), Ok(()));
    assert_eq!(s.add_key_set(7), Ok(()));
    assert_eq!(s.add_key_set(7), Err(Status::ConstraintError));
    assert_eq!(s.add_key_set(8), Err(Status::ResourceExhausted));
    assert_eq!(s.remove_key_set(0), Err(Status::ConstraintError));
    assert_eq!(s.remove_key_set(9), Err(Status::NotFound));
    assert_eq!(s.add_node_key_set(NodeId(1), 7, 1), Err(Status::NotFound));
    assert_eq!(s.add_pending_node(NodeId(1), "lamp", 1), Ok(()));
    assert_eq!(s.add_node_key_set(NodeId(1), 9, 1), Err(Status::NotFound));
    assert_eq!(s.add_node_key_set(NodeId(1), 7, 1), Ok(()));
    assert_eq!(s.add_node_key_set(NodeId(1), 7, 1), Err(Status::ConstraintError));
    assert_eq!(s.remove_key_set(7), Err(Status::ConstraintError));
    assert_eq!(s.key_sets(), [0, 7]);
    assert_eq!(s.remove_node(NodeId(1)), Ok(()));
    assert!(s.node_key_sets().is_empty());
    assert_eq!(s.remove_key_set(7), Ok(()));
    assert_eq!(s.key_sets(), [0]);
}

#[test]
fn the_reserved_categories_are_no_groups() {
    let mut s = Store::new();
    for cat in [0, 0xFFFE, 0xFFFF] {
        assert_eq!(s.add_group(group(1, None, Some(cat))), Err(Status::ConstraintError));
    }
    assert_eq!(s.add_group(group(1, Some(7), None)), Err(Status::NotFound));
    assert_eq!(s.add_group(group(1, None, Some(0xFFFD))), Ok(()));
    assert_eq!(s.add_group(group(1, None, None)), Err(Status::ConstraintError));
    assert_eq!(s.add_group(group(2, None, None)), Ok(()));
    assert_eq!(s.add_group(group(3, None, None)), Err(Status::ResourceExhausted));
    assert_eq!(s.remove_group(GroupId(3)), Err(Status::NotFound));
    assert_eq!(s.remove_group(GroupId(2)), Ok(()));
    assert_eq!(s.groups().len(), 1);
}

#[test]
fn a_group_stays_while_an_endpoint_is_in_it() {
    let mut s = Store::new();
    assert_eq!(s.add_group_to_endpoint(NodeId(1), 1, GroupId(1), 3), Err(Status::NotFound));
    assert_eq!(s.add_pending_node(NodeId(1), "lamp", 1), Ok(()));
    assert_eq!(s.add_group_to_endpoint(NodeId(1), 1, GroupId(1), 3), Err(Status::NotFound));
    assert_eq!(s.add_group(group(1, None, None)), Ok(()));
    assert_eq!(s.add_group_to_endpoint(NodeId(1), 1, GroupId(1), 3), Ok(()));
    assert_eq!(s.add_group_to_endpoint(NodeId(1), 1, GroupId(1), 3), Err(Status::ConstraintError));
    assert_eq!(s.remove_group(GroupId(1)), Err(Status::ConstraintError));
    // It is not gone before its node says so.
    s.deletion_applied(NodeId(1), 1, GroupId(1));
    assert_eq!(s.endpoint_groups().len(), 1);
    assert_eq!(s.remove_group_from_endpoint(NodeId(1), 2, GroupId(1), 4), Err(Status::NotFound));
    assert_eq!(s.remove_group_from_endpoint(NodeId(1), 1, GroupId(1), 4), Ok(()));
    assert_eq!(s.endpoint_groups()[0].status, StatusEntry { state: DatastoreStateEnum::DeletePending, updated_at: 4, failure: None });
    assert!(!s.endpoint_groups()[0].status.is_live());
    s.deletion_applied(NodeId(1), 1, GroupId(1));
    assert!(s.endpoint_groups().is_empty());
    assert_eq!(s.remove_group(GroupId(1)), Ok(()));
}

#[test]
fn a_node_is_recorded_first_and_committed_after() {
    let mut s = Store::new();
    assert_eq!(s.add_pending_node(NodeId(1), "lamp", 10), Ok(()));
    assert_eq!(s.nodes()[0].commissioning, StatusEntry::pending(10));
    assert_eq!(s.add_pending_node(NodeId(1), "lamp", 10), Err(Status::ConstraintError));
    assert_eq!(s.add_pending_node(NodeId(2), &"x".repeat(33), 10), Err(Status::ConstraintError));
    assert_eq!(s.nodes_needing_review::<4>().as_slice(), [NodeId(1)]);
    s.node_refreshed(NodeId(1), Ok(()), 20);
    assert_eq!(s.nodes()[0].commissioning.state, DatastoreStateEnum::Committed);
    assert!(s.nodes_needing_review::<4>().is_empty());
    assert_eq!(s.refresh_node(NodeId(2), 30), Err(Status::NotFound));
    assert_eq!(s.refresh_node(NodeId(1), 30), Ok(()));
    assert_eq!(s.nodes()[0].commissioning, StatusEntry::pending(30));
    s.node_refreshed(NodeId(1), Err(Status::Busy), 40);
    assert_eq!(
        s.nodes()[0].commissioning,
        StatusEntry { state: DatastoreStateEnum::CommitFailed, updated_at: 40, failure: Some(Status::Busy) }
    );
    assert_eq!(s.add_pending_node(NodeId(2), "fan", 10), Ok(()));
    assert_eq!(s.add_pending_node(NodeId(3), "fan", 10), Err(Status::ResourceExhausted));
    // Each node once, for however much is waiting.
    assert_eq!(s.add_group(group(1, None, None)), Ok(()));
    assert_eq!(s.add_group_to_endpoint(NodeId(1), 1, GroupId(1), 3), Ok(()));
    assert_eq!(s.nodes_needing_review::<4>().as_slice(), [NodeId(1), NodeId(2)]);
    assert_eq!(s.nodes_needing_review::<1>().as_slice(), [NodeId(1)]);
}

#[test]
fn administrators_come_and_go() {
    let mut s = Store::default();
    let entry = |node: u64| AdminEntry { node: NodeId(node), friendly_name: name("hub"), vendor: VendorId(0xFFF1), icac_len: 4 };
    assert_eq!(s.add_admin(AdminEntry { icac_len: 401, ..entry(1) }), Err(Status::ConstraintError));
    assert_eq!(s.add_admin(AdminEntry { icac_len: 400, ..entry(1) }), Ok(()));
    assert_eq!(s.add_admin(entry(1)), Err(Status::ConstraintError));
    assert_eq!(s.add_admin(entry(2)), Ok(()));
    assert_eq!(s.add_admin(entry(3)), Err(Status::ResourceExhausted));
    assert_eq!(s.remove_admin(NodeId(3)), Err(Status::NotFound));
    assert_eq!(s.remove_admin(NodeId(1)), Ok(()));
    assert_eq!(s.admins().len(), 1);
    assert_eq!(s.anchor(), None);
    assert_eq!(s.set_anchor(NodeId(9), VendorId(1), "home"), Ok(()));
    assert_eq!(s.set_anchor(NodeId(8), VendorId(1), &"x".repeat(33)), Err(Status::ConstraintError));
    assert_eq!(s.anchor(), Some((NodeId(8), VendorId(1))));
}

#[test]
fn commands_fill_the_tables_and_reads_show_them() {
    let mut c = JointFabricDatastore::new(Store::new());
    let ctx = context(1, false);
    assert_eq!(read(&c, datastore::ID, ANCHOR_NODE_ID), Ok(vec![0x34, 0x00]));
    assert_eq!(read(&c, datastore::ID, ANCHOR_VENDOR_ID), Ok(vec![0x34, 0x00]));
    assert_eq!(read(&c, datastore::ID, FRIENDLY_NAME), Ok(vec![0x2C, 0x00, 0]));
    let key_set = [
        0x15, 0x35, 0x00, 0x24, 0x00, 7, 0x24, 0x01, 0, 0x34, 0x02, 0x34, 0x03, 0x34, 0x04, 0x34, 0x05, 0x34, 0x06, 0x34, 0x07, 0x18, 0x18,
    ];
    assert!(send(&mut c, datastore::ID, ADD_KEY_SET, Some(&key_set), &ctx).is_ok());
    assert_eq!(read(&c, datastore::ID, GROUP_KEY_SET_LIST), Ok(vec![0x36, 0x00, 0x15, 0x24, 0x00, 7, 0x18, 0x18]));
    let added = [0x15, 0x24, 0x00, 1, 0x2C, 0x01, 1, b'g', 0x24, 0x02, 7, 0x34, 0x03, 0x34, 0x04, 0x24, 0x05, 3, 0x18];
    assert!(send(&mut c, datastore::ID, ADD_GROUP, Some(&added), &ctx).is_ok());
    let mut listed = vec![0x36, 0x00];
    listed.extend_from_slice(&added);
    listed.push(0x18);
    assert_eq!(read(&c, datastore::ID, GROUP_LIST), Ok(listed));
    let pending = [0x15, 0x24, 0x00, 4, 0x2C, 0x01, 1, b'n', 0x18];
    assert!(send(&mut c, datastore::ID, ADD_PENDING_NODE, Some(&pending), &ctx).is_ok());
    let node_listed = vec![
        0x36, 0x00, 0x15, 0x24, 0x00, 4, 0x2C, 0x01, 1, b'n', 0x35, 0x02, 0x24, 0x00, 0, 0x24, 0x01, 5, 0x24, 0x02, 0, 0x18, 0x18, 0x18,
    ];
    assert_eq!(read(&c, datastore::ID, NODE_LIST), Ok(node_listed));
    let member = [0x15, 0x24, 0x00, 4, 0x24, 0x01, 1, 0x24, 0x02, 1, 0x18];
    assert!(send(&mut c, datastore::ID, ADD_GROUP_ID_TO_ENDPOINT_FOR_NODE, Some(&member), &ctx).is_ok());
    assert_eq!(
        read(&c, datastore::ID, ENDPOINT_GROUP_ID_LIST),
        Ok(vec![
            0x36, 0x00, 0x15, 0x24, 0x00, 4, 0x24, 0x01, 1, 0x24, 0x02, 1, 0x35, 0x03, 0x24, 0x00, 0, 0x24, 0x01, 5, 0x24, 0x02, 0, 0x18,
            0x18, 0x18
        ])
    );
    assert_eq!(refusal(send(&mut c, datastore::ID, REMOVE_GROUP, Some(&[0x15, 0x24, 0x00, 1, 0x18]), &ctx)).status, Status::ConstraintError);
    assert!(send(&mut c, datastore::ID, REMOVE_GROUP_ID_FROM_ENDPOINT_FOR_NODE, Some(&member), &ctx).is_ok());
    assert!(send(&mut c, datastore::ID, REMOVE_GROUP, Some(&[0x15, 0x24, 0x00, 1, 0x18]), &ctx).is_ok());
    assert!(send(&mut c, datastore::ID, REMOVE_KEY_SET, Some(&[0x15, 0x24, 0x00, 7, 0x18]), &ctx).is_ok());
    assert!(send(&mut c, datastore::ID, REFRESH_NODE, Some(&[0x15, 0x24, 0x00, 4, 0x18]), &ctx).is_ok());
    assert!(send(&mut c, datastore::ID, REMOVE_NODE, Some(&[0x15, 0x24, 0x00, 4, 0x18]), &ctx).is_ok());
    assert!(c.store().endpoint_groups().is_empty());
    let admin = [0x15, 0x24, 0x01, 6, 0x2C, 0x02, 1, b'a', 0x25, 0x03, 0xF1, 0xFF, 0x30, 0x04, 2, 1, 2, 0x18];
    assert!(send(&mut c, datastore::ID, ADD_ADMIN, Some(&admin), &ctx).is_ok());
    assert_eq!(c.store().admins()[0].icac_len, 2);
    assert_eq!(
        read(&c, datastore::ID, ADMIN_LIST),
        Ok(vec![0x36, 0x00, 0x15, 0x24, 0x00, 6, 0x2C, 0x01, 1, b'a', 0x25, 0x02, 0xF1, 0xFF, 0x18, 0x18])
    );
    assert!(send(&mut c, datastore::ID, REMOVE_ADMIN, Some(&[0x15, 0x24, 0x00, 6, 0x18]), &ctx).is_ok());
    assert_eq!(read(&c, datastore::ID, NODE_KEY_SET_LIST), Ok(vec![0x36, 0x00, 0x18]));
    assert_eq!(read(&c, datastore::ID, ANCHOR_ROOT_CA), Err(Status::UnsupportedAttribute));
}

#[test]
fn the_tables_belong_to_a_fabric() {
    let mut c = JointFabricDatastore::new(Store::new());
    let nobody = InteractionContext::new(None, seconds(5));
    let fields = [0x15, 0x24, 0x00, 4, 0x2C, 0x01, 1, b'n', 0x18];
    assert_eq!(refusal(send(&mut c, datastore::ID, ADD_PENDING_NODE, Some(&fields), &nobody)).status, Status::UnsupportedAccess);
    assert_eq!(refusal(send(&mut c, datastore::ID, ADD_PENDING_NODE, Some(&fields), &context(0, false))).status, Status::UnsupportedAccess);
    assert_eq!(refusal(send(&mut c, datastore::ID, ADD_PENDING_NODE, None, &context(1, false))).status, Status::InvalidCommand);
    assert_eq!(refusal(send(&mut c, datastore::ID, UPDATE_NODE, Some(&fields), &context(1, false))).status, Status::UnsupportedCommand);
    assert!(c.store().nodes().is_empty());
}

#[test]
fn the_product_is_told_only_what_is_warranted() {
    let hooks = Ecosystem::new();
    let ctx = context(1, true);
    let mut c = armed(&hooks);
    // Neither a signing request without a fabric nor a certificate without a signing request.
    assert!(send(&mut c, administrator::ID, ICACCSR_REQUEST, None, &ctx).is_ok());
    assert!(send(&mut c, administrator::ID, ADD_ICAC, Some(&ICAC), &ctx).is_ok());
    assert_eq!(hooks.made.get(), 0);
    assert!(hooks.done.borrow().is_empty());
    c.set_administrator_fabric(Some(FabricIndex(1)));
    assert!(send(&mut c, administrator::ID, ICACCSR_REQUEST, None, &ctx).is_ok());
    assert_eq!(hooks.made.get(), 1);
    hooks.verdict.set(ICACResponseStatusEnum::InvalidPublicKey);
    assert!(send(&mut c, administrator::ID, ADD_ICAC, Some(&ICAC), &ctx).is_ok());
    assert_eq!(*hooks.done.borrow(), ["validate 1 1"]);
    assert!(send(&mut c, administrator::ID, 0x77, None, &ctx).is_err());
    assert_eq!(*hooks.done.borrow(), ["validate 1 1"]);
}
