//! Joint Fabric Datastore, cluster `0x0752`: what every administrator of a Joint Fabric agrees is
//! on it.
//!
//! A node is recorded before it is on the fabric and committed after. Nothing is removed while
//! something that is not itself on its way out still refers to it.

use vstd::prelude::*;
use vstd::utf8;

use crate::bounded;
use crate::bounded::{List, Text};
use crate::clusters::dispatch::Cluster;
use crate::clusters::group_key_management;
use crate::conformance;
use crate::conformance::{Conformance, Conforming, Definition, DefinitionModel, Optional};
use crate::dm::Privilege;
use crate::error::ErrorCode;
use crate::fields;
use crate::fields::{Field, Fields, Kind, Need};
use crate::im;
use crate::im::{
    AttributeId, ClusterHandler, ClusterId, CommandId, EndpointId, InteractionContext, InvokeAnswer, Lifecycle, ReadAnswer, Reply,
    Resolved, ResolvedCommand, Status, StatusIb, WriteOp,
};
use crate::msg::{GroupId, NodeId, VendorId, ADMINISTRATOR_CAT, ANCHOR_CAT};
use crate::platform::Instant;
use crate::tlv;
use crate::tlv::{Numbered, Tag, ToTlv};

verus! {

/// The cluster.
pub const ID: ClusterId = 0x0752;

/// Its revision.
pub const REVISION: u16 = 1;

/// `AnchorRootCA`.
pub const ANCHOR_ROOT_CA: AttributeId = 0x0000;

/// `AnchorNodeID`.
pub const ANCHOR_NODE_ID: AttributeId = 0x0001;

/// `AnchorVendorID`.
pub const ANCHOR_VENDOR_ID: AttributeId = 0x0002;

/// `FriendlyName`.
pub const FRIENDLY_NAME: AttributeId = 0x0003;

/// `GroupKeySetList`.
pub const GROUP_KEY_SET_LIST: AttributeId = 0x0004;

/// `GroupList`.
pub const GROUP_LIST: AttributeId = 0x0005;

/// `NodeList`.
pub const NODE_LIST: AttributeId = 0x0006;

/// `AdminList`.
pub const ADMIN_LIST: AttributeId = 0x0007;

/// `Status`.
pub const STATUS: AttributeId = 0x0008;

/// `EndpointGroupIDList`.
pub const ENDPOINT_GROUP_ID_LIST: AttributeId = 0x0009;

/// `EndpointBindingList`.
pub const ENDPOINT_BINDING_LIST: AttributeId = 0x000A;

/// `NodeKeySetList`.
pub const NODE_KEY_SET_LIST: AttributeId = 0x000B;

/// `NodeACLList`.
pub const NODE_ACL_LIST: AttributeId = 0x000C;

/// `NodeEndpointList`.
pub const NODE_ENDPOINT_LIST: AttributeId = 0x000D;

/// `AddKeySet`.
pub const ADD_KEY_SET: CommandId = 0x00;

/// `UpdateKeySet`.
pub const UPDATE_KEY_SET: CommandId = 0x01;

/// `RemoveKeySet`.
pub const REMOVE_KEY_SET: CommandId = 0x02;

/// `AddGroup`.
pub const ADD_GROUP: CommandId = 0x03;

/// `UpdateGroup`.
pub const UPDATE_GROUP: CommandId = 0x04;

/// `RemoveGroup`.
pub const REMOVE_GROUP: CommandId = 0x05;

/// `AddAdmin`.
pub const ADD_ADMIN: CommandId = 0x06;

/// `UpdateAdmin`.
pub const UPDATE_ADMIN: CommandId = 0x07;

/// `RemoveAdmin`.
pub const REMOVE_ADMIN: CommandId = 0x08;

/// `AddPendingNode`.
pub const ADD_PENDING_NODE: CommandId = 0x09;

/// `RefreshNode`.
pub const REFRESH_NODE: CommandId = 0x0A;

/// `UpdateNode`.
pub const UPDATE_NODE: CommandId = 0x0B;

/// `RemoveNode`.
pub const REMOVE_NODE: CommandId = 0x0C;

/// `UpdateEndpointForNode`.
pub const UPDATE_ENDPOINT_FOR_NODE: CommandId = 0x0D;

/// `AddGroupIDToEndpointForNode`.
pub const ADD_GROUP_ID_TO_ENDPOINT_FOR_NODE: CommandId = 0x0E;

/// `RemoveGroupIDFromEndpointForNode`.
pub const REMOVE_GROUP_ID_FROM_ENDPOINT_FOR_NODE: CommandId = 0x0F;

/// `AddBindingToEndpointForNode`.
pub const ADD_BINDING_TO_ENDPOINT_FOR_NODE: CommandId = 0x10;

/// `RemoveBindingFromEndpointForNode`.
pub const REMOVE_BINDING_FROM_ENDPOINT_FOR_NODE: CommandId = 0x11;

/// `AddACLToNode`.
pub const ADD_ACL_TO_NODE: CommandId = 0x12;

/// `RemoveACLFromNode`.
pub const REMOVE_ACL_FROM_NODE: CommandId = 0x13;

/// The most octets of a name.
pub const FRIENDLY_NAME_MAX: usize = 32;

/// The most octets that an administrator's certificate may have.
pub const ICAC_MAX: usize = 400;

/// The key set of the fabric's own identity, which cannot be removed.
pub const IPK_KEY_SET: u16 = 0;

/// The least identifier that a group's tag can have.
pub const GROUP_CAT_MIN: u16 = 1;

/// The greatest identifier that a group's tag can have.
pub const GROUP_CAT_MAX: u16 = 65534;

/// A name.
pub type FriendlyName = Text<FRIENDLY_NAME_MAX>;

/// How far a change has come.
#[derive(Debug, Clone, Copy, PartialEq, Eq, Structural)]
pub enum DatastoreStateEnum {
    /// It waits to reach its node.
    Pending,
    /// It reached its node.
    Committed,
    /// What it was about waits to be deleted.
    DeletePending,
    /// It failed at its node.
    CommitFailed,
}

impl Numbered for DatastoreStateEnum {
    open spec fn number(self) -> u64 {
        match self {
            DatastoreStateEnum::Pending => 0,
            DatastoreStateEnum::Committed => 1,
            DatastoreStateEnum::DeletePending => 2,
            DatastoreStateEnum::CommitFailed => 3,
        }
    }

    fn as_number(self) -> (v: u64) {
        match self {
            DatastoreStateEnum::Pending => 0,
            DatastoreStateEnum::Committed => 1,
            DatastoreStateEnum::DeletePending => 2,
            DatastoreStateEnum::CommitFailed => 3,
        }
    }
}

/// What the entries of a group are granted.
#[derive(Debug, Clone, Copy, PartialEq, Eq, Structural)]
pub enum DatastoreAccessControlEntryPrivilegeEnum {
    /// View.
    View,
    /// Proxy view.
    ProxyView,
    /// Operate.
    Operate,
    /// Manage.
    Manage,
    /// Administer.
    Administer,
}

impl Numbered for DatastoreAccessControlEntryPrivilegeEnum {
    open spec fn number(self) -> u64 {
        match self {
            DatastoreAccessControlEntryPrivilegeEnum::View => 1,
            DatastoreAccessControlEntryPrivilegeEnum::ProxyView => 2,
            DatastoreAccessControlEntryPrivilegeEnum::Operate => 3,
            DatastoreAccessControlEntryPrivilegeEnum::Manage => 4,
            DatastoreAccessControlEntryPrivilegeEnum::Administer => 5,
        }
    }

    fn as_number(self) -> (v: u64) {
        match self {
            DatastoreAccessControlEntryPrivilegeEnum::View => 1,
            DatastoreAccessControlEntryPrivilegeEnum::ProxyView => 2,
            DatastoreAccessControlEntryPrivilegeEnum::Operate => 3,
            DatastoreAccessControlEntryPrivilegeEnum::Manage => 4,
            DatastoreAccessControlEntryPrivilegeEnum::Administer => 5,
        }
    }
}

/// How far a managed thing has come.
#[derive(Debug, Clone, Copy, PartialEq, Eq, Structural)]
pub struct StatusEntry {
    /// How far.
    pub state: DatastoreStateEnum,
    /// When it came there, in seconds.
    pub updated_at: u32,
    /// What went wrong at its node, where something did.
    pub failure: Option<Status>,
}

/// A change that waits to reach its node.
pub open spec fn waiting(now: u32) -> StatusEntry {
    StatusEntry { state: DatastoreStateEnum::Pending, updated_at: now, failure: None }
}

impl StatusEntry {
    /// Whether the thing is not on its way out.
    pub open spec fn live(self) -> bool {
        !(self.state is DeletePending)
    }

    /// A change that waits to reach its node.
    pub fn pending(now: u32) -> (s: Self)
        ensures
            s == waiting(now),
    {
        StatusEntry { state: DatastoreStateEnum::Pending, updated_at: now, failure: None }
    }

    /// Whether the thing is not on its way out.
    pub fn is_live(&self) -> (r: bool)
        ensures
            r == self.live(),
    {
        !matches!(self.state, DatastoreStateEnum::DeletePending)
    }
}

/// A node.
pub struct NodeEntry {
    /// Which.
    pub node: NodeId,
    /// Its name.
    pub friendly_name: FriendlyName,
    /// How far it has come.
    pub commissioning: StatusEntry,
}

/// A node, as a value.
pub struct NodeModel {
    /// Which.
    pub node: NodeId,
    /// Its name.
    pub friendly_name: Seq<char>,
    /// How far it has come.
    pub commissioning: StatusEntry,
}

impl View for NodeEntry {
    type V = NodeModel;

    open spec fn view(&self) -> NodeModel {
        NodeModel { node: self.node, friendly_name: self.friendly_name@, commissioning: self.commissioning }
    }
}

/// A group.
pub struct GroupEntry {
    /// Which.
    pub group: GroupId,
    /// Its name.
    pub friendly_name: FriendlyName,
    /// The key set that secures it.
    pub key_set: Option<u16>,
    /// The identifier of its tag.
    pub cat: Option<u16>,
    /// The version of its tag.
    pub cat_version: Option<u16>,
    /// What its entries are granted.
    pub permission: DatastoreAccessControlEntryPrivilegeEnum,
}

/// A group, as a value.
pub struct GroupModel {
    /// Which.
    pub group: GroupId,
    /// Its name.
    pub friendly_name: Seq<char>,
    /// The key set that secures it.
    pub key_set: Option<u16>,
    /// The identifier of its tag.
    pub cat: Option<u16>,
    /// The version of its tag.
    pub cat_version: Option<u16>,
    /// What its entries are granted.
    pub permission: DatastoreAccessControlEntryPrivilegeEnum,
}

impl View for GroupEntry {
    type V = GroupModel;

    open spec fn view(&self) -> GroupModel {
        GroupModel {
            group: self.group,
            friendly_name: self.friendly_name@,
            key_set: self.key_set,
            cat: self.cat,
            cat_version: self.cat_version,
            permission: self.permission,
        }
    }
}

/// An administrator.
pub struct AdminEntry {
    /// Its node.
    pub node: NodeId,
    /// Its name.
    pub friendly_name: FriendlyName,
    /// Its vendor.
    pub vendor: VendorId,
    /// How many octets its certificate has, at most [`ICAC_MAX`].
    pub icac_len: usize,
}

/// An administrator, as a value.
pub struct AdminModel {
    /// Its node.
    pub node: NodeId,
    /// Its name.
    pub friendly_name: Seq<char>,
    /// Its vendor.
    pub vendor: VendorId,
    /// How many octets its certificate has.
    pub icac_len: usize,
}

impl View for AdminEntry {
    type V = AdminModel;

    open spec fn view(&self) -> AdminModel {
        AdminModel {
            node: self.node,
            friendly_name: self.friendly_name@,
            vendor: self.vendor,
            icac_len: self.icac_len,
        }
    }
}

/// A key set that a node holds.
#[derive(Debug, Clone, Copy, PartialEq, Eq, Structural)]
pub struct NodeKeySet {
    /// The node.
    pub node: NodeId,
    /// The key set.
    pub key_set: u16,
    /// How far it has come.
    pub status: StatusEntry,
}

/// A group that an endpoint is in.
#[derive(Debug, Clone, Copy, PartialEq, Eq, Structural)]
pub struct EndpointGroup {
    /// The node.
    pub node: NodeId,
    /// The endpoint.
    pub endpoint: EndpointId,
    /// The group.
    pub group: GroupId,
    /// How far it has come.
    pub status: StatusEntry,
}

/// What a datastore holds.
pub struct StoreModel {
    /// The nodes.
    pub nodes: Seq<NodeModel>,
    /// The groups.
    pub groups: Seq<GroupModel>,
    /// The key sets.
    pub key_sets: Seq<u16>,
    /// The administrators.
    pub admins: Seq<AdminModel>,
    /// The key sets that nodes hold.
    pub node_key_sets: Seq<NodeKeySet>,
    /// The groups that endpoints are in.
    pub endpoint_groups: Seq<EndpointGroup>,
    /// The anchor and its vendor.
    pub anchor: Option<(NodeId, VendorId)>,
    /// The fabric's name.
    pub friendly_name: Seq<char>,
}

/// How much a datastore can hold.
pub struct Caps {
    /// Nodes.
    pub nodes: nat,
    /// Groups.
    pub groups: nat,
    /// Key sets.
    pub key_sets: nat,
    /// Administrators.
    pub admins: nat,
    /// Key sets of nodes, and groups of endpoints.
    pub members: nat,
}

/// A node's entry.
pub open spec fn of_node(node: NodeId) -> spec_fn(NodeModel) -> bool {
    |n: NodeModel| n.node == node
}

/// Any other node's entry.
pub open spec fn not_node(node: NodeId) -> spec_fn(NodeModel) -> bool {
    |n: NodeModel| n.node != node
}

/// A group's entry.
pub open spec fn of_group(group: GroupId) -> spec_fn(GroupModel) -> bool {
    |g: GroupModel| g.group == group
}

/// Any other group's entry.
pub open spec fn not_group(group: GroupId) -> spec_fn(GroupModel) -> bool {
    |g: GroupModel| g.group != group
}

/// A key set.
pub open spec fn of_key_set(key_set: u16) -> spec_fn(u16) -> bool {
    |k: u16| k == key_set
}

/// Any other key set.
pub open spec fn not_key_set(key_set: u16) -> spec_fn(u16) -> bool {
    |k: u16| k != key_set
}

/// An administrator's entry.
pub open spec fn of_admin(node: NodeId) -> spec_fn(AdminModel) -> bool {
    |a: AdminModel| a.node == node
}

/// Any other administrator's entry.
pub open spec fn not_admin(node: NodeId) -> spec_fn(AdminModel) -> bool {
    |a: AdminModel| a.node != node
}

/// A node that holds a key set.
pub open spec fn holds(node: NodeId, key_set: u16) -> spec_fn(NodeKeySet) -> bool {
    |e: NodeKeySet| e.node == node && e.key_set == key_set
}

/// A node that holds a key set and is not about to give it up.
pub open spec fn keeps(key_set: u16) -> spec_fn(NodeKeySet) -> bool {
    |e: NodeKeySet| e.key_set == key_set && e.status.live()
}

/// What any other node holds.
pub open spec fn held_elsewhere(node: NodeId) -> spec_fn(NodeKeySet) -> bool {
    |e: NodeKeySet| e.node != node
}

/// A membership.
pub open spec fn membership(node: NodeId, endpoint: EndpointId, group: GroupId) -> spec_fn(EndpointGroup) -> bool {
    |m: EndpointGroup| m.node == node && m.endpoint == endpoint && m.group == group
}

/// A membership in a group that is not on its way out.
pub open spec fn lives_in(group: GroupId) -> spec_fn(EndpointGroup) -> bool {
    |m: EndpointGroup| m.group == group && m.status.live()
}

/// The memberships of any other node.
pub open spec fn member_elsewhere(node: NodeId) -> spec_fn(EndpointGroup) -> bool {
    |m: EndpointGroup| m.node != node
}

/// Every membership but one that is on its way out.
pub open spec fn not_deleted(node: NodeId, endpoint: EndpointId, group: GroupId) -> spec_fn(EndpointGroup) -> bool {
    |m: EndpointGroup| !(m.node == node && m.endpoint == endpoint && m.group == group && !m.status.live())
}

/// Whether a tag's identifier is reserved for administrators or for the anchor.
pub open spec fn reserved(cat: u16) -> bool {
    cat == ADMINISTRATOR_CAT || cat == ANCHOR_CAT
}

/// Whether a group can have a tag: it lies in the range, and is not reserved.
pub open spec fn taggable(cat: Option<u16>) -> bool {
    cat matches Some(c) ==> GROUP_CAT_MIN <= c <= GROUP_CAT_MAX && !reserved(c)
}

/// What `AddKeySet` comes to.
pub open spec fn key_set_added(m: StoreModel, key_set: u16, cap: nat) -> (StoreModel, Option<Status>) {
    if bounded::first(m.key_sets, of_key_set(key_set)) is Some {
        (m, Some(Status::ConstraintError))
    } else if m.key_sets.len() >= cap {
        (m, Some(Status::ResourceExhausted))
    } else {
        (StoreModel { key_sets: m.key_sets.push(key_set), ..m }, None)
    }
}

/// What `RemoveKeySet` comes to.
pub open spec fn key_set_removed(m: StoreModel, key_set: u16) -> (StoreModel, Option<Status>) {
    if key_set == IPK_KEY_SET {
        (m, Some(Status::ConstraintError))
    } else if bounded::first(m.key_sets, of_key_set(key_set)) is None {
        (m, Some(Status::NotFound))
    } else if bounded::first(m.node_key_sets, keeps(key_set)) is Some {
        (m, Some(Status::ConstraintError))
    } else {
        (StoreModel { key_sets: m.key_sets.filter(not_key_set(key_set)), ..m }, None)
    }
}

/// What `AddGroup` comes to.
pub open spec fn group_added(m: StoreModel, g: GroupModel, cap: nat) -> (StoreModel, Option<Status>) {
    if !taggable(g.cat) {
        (m, Some(Status::ConstraintError))
    } else if bounded::first(m.groups, of_group(g.group)) is Some {
        (m, Some(Status::ConstraintError))
    } else if g.key_set matches Some(k) && bounded::first(m.key_sets, of_key_set(k)) is None {
        (m, Some(Status::NotFound))
    } else if m.groups.len() >= cap {
        (m, Some(Status::ResourceExhausted))
    } else {
        (StoreModel { groups: m.groups.push(g), ..m }, None)
    }
}

/// What `RemoveGroup` comes to.
pub open spec fn group_removed(m: StoreModel, group: GroupId) -> (StoreModel, Option<Status>) {
    match bounded::first(m.groups, of_group(group)) {
        None => (m, Some(Status::NotFound)),
        Some(i) => if m.groups[i].cat matches Some(c) && reserved(c) {
            (m, Some(Status::ConstraintError))
        } else if bounded::first(m.endpoint_groups, lives_in(group)) is Some {
            (m, Some(Status::ConstraintError))
        } else {
            (StoreModel { groups: m.groups.filter(not_group(group)), ..m }, None)
        },
    }
}

/// What `AddPendingNode` comes to.
pub open spec fn node_added(m: StoreModel, node: NodeId, name: Seq<char>, now: u32, cap: nat) -> (StoreModel, Option<Status>) {
    if bounded::first(m.nodes, of_node(node)) is Some {
        (m, Some(Status::ConstraintError))
    } else if utf8::encode_utf8(name).len() > FRIENDLY_NAME_MAX {
        (m, Some(Status::ConstraintError))
    } else if m.nodes.len() >= cap {
        (m, Some(Status::ResourceExhausted))
    } else {
        (
            StoreModel {
                nodes: m.nodes.push(NodeModel { node, friendly_name: name, commissioning: waiting(now) }),
                ..m
            },
            None,
        )
    }
}

/// A datastore in which a node has come as far as this.
pub open spec fn advanced(m: StoreModel, i: int, status: StatusEntry) -> StoreModel {
    StoreModel { nodes: m.nodes.update(i, NodeModel { commissioning: status, ..m.nodes[i] }), ..m }
}

/// What `RefreshNode` comes to.
pub open spec fn node_refreshing(m: StoreModel, node: NodeId, now: u32) -> (StoreModel, Option<Status>) {
    match bounded::first(m.nodes, of_node(node)) {
        None => (m, Some(Status::NotFound)),
        Some(i) => (advanced(m, i, waiting(now)), None),
    }
}

/// How far a refresh has come, given how it ended.
pub open spec fn refreshed(outcome: Result<(), Status>, now: u32) -> StatusEntry {
    match outcome {
        Ok(_) => StatusEntry { state: DatastoreStateEnum::Committed, updated_at: now, failure: None },
        Err(status) => StatusEntry { state: DatastoreStateEnum::CommitFailed, updated_at: now, failure: Some(status) },
    }
}

/// What the end of a refresh comes to.
pub open spec fn node_was_refreshed(m: StoreModel, node: NodeId, outcome: Result<(), Status>, now: u32) -> StoreModel {
    match bounded::first(m.nodes, of_node(node)) {
        None => m,
        Some(i) => advanced(m, i, refreshed(outcome, now)),
    }
}

/// What `RemoveNode` comes to: everything about the node goes with it.
pub open spec fn node_removed(m: StoreModel, node: NodeId) -> (StoreModel, Option<Status>) {
    if bounded::first(m.nodes, of_node(node)) is None {
        (m, Some(Status::NotFound))
    } else {
        (
            StoreModel {
                nodes: m.nodes.filter(not_node(node)),
                node_key_sets: m.node_key_sets.filter(held_elsewhere(node)),
                endpoint_groups: m.endpoint_groups.filter(member_elsewhere(node)),
                ..m
            },
            None,
        )
    }
}

/// What `AddAdmin` comes to: a certificate that is too long breaks a constraint, and so does an
/// administrator that is there already.
pub open spec fn admin_added(m: StoreModel, a: AdminModel, cap: nat) -> (StoreModel, Option<Status>) {
    if a.icac_len > ICAC_MAX {
        (m, Some(Status::ConstraintError))
    } else if bounded::first(m.admins, of_admin(a.node)) is Some {
        (m, Some(Status::ConstraintError))
    } else if m.admins.len() >= cap {
        (m, Some(Status::ResourceExhausted))
    } else {
        (StoreModel { admins: m.admins.push(a), ..m }, None)
    }
}

/// What `RemoveAdmin` comes to.
pub open spec fn admin_removed(m: StoreModel, node: NodeId) -> (StoreModel, Option<Status>) {
    if bounded::first(m.admins, of_admin(node)) is None {
        (m, Some(Status::NotFound))
    } else {
        (StoreModel { admins: m.admins.filter(not_admin(node)), ..m }, None)
    }
}

/// What giving a node a key set comes to.
pub open spec fn node_key_set_added(m: StoreModel, node: NodeId, key_set: u16, now: u32, cap: nat) -> (StoreModel, Option<Status>) {
    if bounded::first(m.nodes, of_node(node)) is None {
        (m, Some(Status::NotFound))
    } else if bounded::first(m.key_sets, of_key_set(key_set)) is None {
        (m, Some(Status::NotFound))
    } else if bounded::first(m.node_key_sets, holds(node, key_set)) is Some {
        (m, Some(Status::ConstraintError))
    } else if m.node_key_sets.len() >= cap {
        (m, Some(Status::ResourceExhausted))
    } else {
        (
            StoreModel { node_key_sets: m.node_key_sets.push(NodeKeySet { node, key_set, status: waiting(now) }), ..m },
            None,
        )
    }
}

/// What `AddGroupIDToEndpointForNode` comes to.
pub open spec fn member_added(m: StoreModel, node: NodeId, endpoint: EndpointId, group: GroupId, now: u32, cap: nat) -> (
    StoreModel,
    Option<Status>,
) {
    if bounded::first(m.nodes, of_node(node)) is None {
        (m, Some(Status::NotFound))
    } else if bounded::first(m.groups, of_group(group)) is None {
        (m, Some(Status::NotFound))
    } else if bounded::first(m.endpoint_groups, membership(node, endpoint, group)) is Some {
        (m, Some(Status::ConstraintError))
    } else if m.endpoint_groups.len() >= cap {
        (m, Some(Status::ResourceExhausted))
    } else {
        (
            StoreModel {
                endpoint_groups: m.endpoint_groups.push(EndpointGroup { node, endpoint, group, status: waiting(now) }),
                ..m
            },
            None,
        )
    }
}

/// What `RemoveGroupIDFromEndpointForNode` comes to: the membership is on its way out.
pub open spec fn member_leaving(m: StoreModel, node: NodeId, endpoint: EndpointId, group: GroupId, now: u32) -> (
    StoreModel,
    Option<Status>,
) {
    match bounded::first(m.endpoint_groups, membership(node, endpoint, group)) {
        None => (m, Some(Status::NotFound)),
        Some(i) => (
            StoreModel {
                endpoint_groups: m.endpoint_groups.update(
                    i,
                    EndpointGroup {
                        status: StatusEntry { state: DatastoreStateEnum::DeletePending, updated_at: now, failure: None },
                        ..m.endpoint_groups[i]
                    },
                ),
                ..m
            },
            None,
        ),
    }
}

/// What a deletion that reached its node comes to.
pub open spec fn member_left(m: StoreModel, node: NodeId, endpoint: EndpointId, group: GroupId) -> StoreModel {
    StoreModel { endpoint_groups: m.endpoint_groups.filter(not_deleted(node, endpoint, group)), ..m }
}

/// What naming an anchor comes to: the anchor is noted also where the name is too long.
pub open spec fn anchored(m: StoreModel, node: NodeId, vendor: VendorId, name: Seq<char>) -> (StoreModel, Option<Status>) {
    if utf8::encode_utf8(name).len() > FRIENDLY_NAME_MAX {
        (StoreModel { anchor: Some((node, vendor)), ..m }, Some(Status::ConstraintError))
    } else {
        (StoreModel { anchor: Some((node, vendor)), friendly_name: name, ..m }, None)
    }
}

/// A node that waits for something, where it does.
pub open spec fn due(node: NodeId, status: StatusEntry) -> Option<NodeId> {
    if status.state is Committed {
        None
    } else {
        Some(node)
    }
}

/// For every entry the node that waits for something, where it does: nodes first, then the key sets
/// that nodes hold, then the groups that endpoints are in.
pub open spec fn dues(m: StoreModel) -> Seq<Option<NodeId>> {
    m.nodes.map_values(|n: NodeModel| due(n.node, n.commissioning)) + m.node_key_sets.map_values(
        |e: NodeKeySet| due(e.node, e.status),
    ) + m.endpoint_groups.map_values(|e: EndpointGroup| due(e.node, e.status))
}

/// The nodes among the first `n` that wait, each once, as far as there is room.
pub open spec fn noted(s: Seq<Option<NodeId>>, n: int, cap: nat) -> Seq<NodeId>
    decreases n,
{
    if n <= 0 {
        Seq::empty()
    } else {
        let before = noted(s, n - 1, cap);
        match s[n - 1] {
            None => before,
            Some(node) => if before.contains(node) || before.len() >= cap {
                before
            } else {
                before.push(node)
            },
        }
    }
}

/// What went wrong, where something did.
pub open spec fn refusal(r: Result<(), Status>) -> Option<Status> {
    match r {
        Ok(_) => None,
        Err(status) => Some(status),
    }
}

fn is_reserved_cat(cat: u16) -> (r: bool)
    ensures
        r == reserved(cat),
{
    cat == ADMINISTRATOR_CAT || cat == ANCHOR_CAT
}

/// The tables of a datastore: at most `N` nodes, `G` groups, `K` key sets, `A` administrators, and
/// `M` key sets of nodes and groups of endpoints.
pub struct Datastore<const N: usize, const G: usize, const K: usize, const A: usize, const M: usize> {
    /// The nodes.
    pub nodes: List<NodeEntry, N>,
    /// The groups.
    pub groups: List<GroupEntry, G>,
    /// The key sets.
    pub key_sets: List<u16, K>,
    /// The administrators.
    pub admins: List<AdminEntry, A>,
    /// The key sets that nodes hold.
    pub node_key_sets: List<NodeKeySet, M>,
    /// The groups that endpoints are in.
    pub endpoint_groups: List<EndpointGroup, M>,
    /// The anchor and its vendor.
    pub anchor: Option<(NodeId, VendorId)>,
    /// The fabric's name.
    pub friendly_name: FriendlyName,
}

impl<const N: usize, const G: usize, const K: usize, const A: usize, const M: usize> View for Datastore<N, G, K, A, M> {
    type V = StoreModel;

    open spec fn view(&self) -> StoreModel {
        StoreModel {
            nodes: self.nodes.models(),
            groups: self.groups.models(),
            key_sets: self.key_sets@,
            admins: self.admins.models(),
            node_key_sets: self.node_key_sets@,
            endpoint_groups: self.endpoint_groups@,
            anchor: self.anchor,
            friendly_name: self.friendly_name@,
        }
    }
}

/// An empty datastore.
pub open spec fn empty_store() -> StoreModel {
    StoreModel {
        nodes: Seq::empty(),
        groups: Seq::empty(),
        key_sets: Seq::empty(),
        admins: Seq::empty(),
        node_key_sets: Seq::empty(),
        endpoint_groups: Seq::empty(),
        anchor: None,
        friendly_name: Seq::empty(),
    }
}

impl<const N: usize, const G: usize, const K: usize, const A: usize, const M: usize> Default for Datastore<N, G, K, A, M> {
    fn default() -> (s: Self)
        ensures
            s@ == empty_store(),
    {
        Datastore::new()
    }
}

impl<const N: usize, const G: usize, const K: usize, const A: usize, const M: usize> Datastore<N, G, K, A, M> {
    /// How much it can hold.
    pub open spec fn caps() -> Caps {
        Caps { nodes: N as nat, groups: G as nat, key_sets: K as nat, admins: A as nat, members: M as nat }
    }

    /// An empty datastore.
    pub fn new() -> (s: Self)
        ensures
            s@ == empty_store(),
    {
        let s: Self = Datastore {
            nodes: List::new(),
            groups: List::new(),
            key_sets: List::new(),
            admins: List::new(),
            node_key_sets: List::new(),
            endpoint_groups: List::new(),
            anchor: None,
            friendly_name: Text::new(),
        };
        proof {
            assert(s@.nodes =~= Seq::<NodeModel>::empty());
            assert(s@.groups =~= Seq::<GroupModel>::empty());
            assert(s@.admins =~= Seq::<AdminModel>::empty());
        }
        s
    }

    /// Names the anchor and the fabric.
    pub fn set_anchor(&mut self, node: NodeId, vendor: VendorId, name: &str) -> (r: Result<(), Status>)
        ensures
            (final(self)@, refusal(r)) == anchored(old(self)@, node, vendor, name@),
    {
        self.anchor = Some((node, vendor));
        match Text::copy_of(name) {
            None => Err(Status::ConstraintError),
            Some(name) => {
                self.friendly_name = name;
                Ok(())
            },
        }
    }

    /// The anchor and its vendor.
    pub fn anchor(&self) -> (a: Option<(NodeId, VendorId)>)
        ensures
            a == self@.anchor,
    {
        self.anchor
    }

    /// The nodes.
    pub fn nodes(&self) -> (n: &[NodeEntry])
        ensures
            bounded::models(n@) == self@.nodes,
    {
        self.nodes.as_slice()
    }

    /// The groups.
    pub fn groups(&self) -> (g: &[GroupEntry])
        ensures
            bounded::models(g@) == self@.groups,
    {
        self.groups.as_slice()
    }

    /// The administrators.
    pub fn admins(&self) -> (a: &[AdminEntry])
        ensures
            bounded::models(a@) == self@.admins,
    {
        self.admins.as_slice()
    }

    /// The key sets.
    pub fn key_sets(&self) -> (k: &[u16])
        ensures
            k@ == self@.key_sets,
    {
        self.key_sets.as_slice()
    }

    /// The key sets that nodes hold.
    pub fn node_key_sets(&self) -> (k: &[NodeKeySet])
        ensures
            k@ == self@.node_key_sets,
    {
        self.node_key_sets.as_slice()
    }

    /// The groups that endpoints are in.
    pub fn endpoint_groups(&self) -> (g: &[EndpointGroup])
        ensures
            g@ == self@.endpoint_groups,
    {
        self.endpoint_groups.as_slice()
    }

    fn node_at(&self, node: NodeId) -> (at: Option<usize>)
        ensures
            match at {
                Some(i) => bounded::first(self@.nodes, of_node(node)) == Some(i as int) && i < self@.nodes.len(),
                None => bounded::first(self@.nodes, of_node(node)) is None,
            },
    {
        self.nodes.find(
            |n: &NodeEntry| -> (b: bool)
                ensures
                    b == (n.node == node)
                { n.node.0 == node.0 },
            Ghost(of_node(node)),
        )
    }

    fn group_at(&self, group: GroupId) -> (at: Option<usize>)
        ensures
            match at {
                Some(i) => bounded::first(self@.groups, of_group(group)) == Some(i as int) && i < self@.groups.len(),
                None => bounded::first(self@.groups, of_group(group)) is None,
            },
    {
        self.groups.find(
            |g: &GroupEntry| -> (b: bool)
                ensures
                    b == (g.group == group)
                { g.group.0 == group.0 },
            Ghost(of_group(group)),
        )
    }

    fn has_key_set(&self, key_set: u16) -> (r: bool)
        ensures
            r == (bounded::first(self@.key_sets, of_key_set(key_set)) is Some),
    {
        self.key_sets.position(
            |k: &u16| -> (b: bool)
                ensures
                    b == (*k == key_set)
                { *k == key_set },
            Ghost(of_key_set(key_set)),
        ).is_some()
    }

    fn admin_at(&self, node: NodeId) -> (at: Option<usize>)
        ensures
            match at {
                Some(i) => bounded::first(self@.admins, of_admin(node)) == Some(i as int) && i < self@.admins.len(),
                None => bounded::first(self@.admins, of_admin(node)) is None,
            },
    {
        self.admins.find(
            |a: &AdminEntry| -> (b: bool)
                ensures
                    b == (a.node == node)
                { a.node.0 == node.0 },
            Ghost(of_admin(node)),
        )
    }

    fn member_at(&self, node: NodeId, endpoint: EndpointId, group: GroupId) -> (at: Option<usize>)
        ensures
            match at {
                Some(i) => bounded::first(self@.endpoint_groups, membership(node, endpoint, group)) == Some(i as int) && i
                    < self@.endpoint_groups.len(),
                None => bounded::first(self@.endpoint_groups, membership(node, endpoint, group)) is None,
            },
    {
        self.endpoint_groups.position(
            |m: &EndpointGroup| -> (b: bool)
                ensures
                    b == (m.node == node && m.endpoint == endpoint && m.group == group)
                { m.node.0 == node.0 && m.endpoint == endpoint && m.group.0 == group.0 },
            Ghost(membership(node, endpoint, group)),
        )
    }

    /// `AddKeySet`.
    pub fn add_key_set(&mut self, key_set: u16) -> (r: Result<(), Status>)
        ensures
            (final(self)@, refusal(r)) == key_set_added(old(self)@, key_set, K as nat),
    {
        if self.has_key_set(key_set) {
            return Err(Status::ConstraintError);
        }
        if self.key_sets.push(key_set) {
            Ok(())
        } else {
            Err(Status::ResourceExhausted)
        }
    }

    /// `RemoveKeySet`.
    pub fn remove_key_set(&mut self, key_set: u16) -> (r: Result<(), Status>)
        ensures
            (final(self)@, refusal(r)) == key_set_removed(old(self)@, key_set),
    {
        if key_set == IPK_KEY_SET {
            return Err(Status::ConstraintError);
        }
        if !self.has_key_set(key_set) {
            return Err(Status::NotFound);
        }
        let kept: Option<usize> = self.node_key_sets.position(
            |e: &NodeKeySet| -> (b: bool)
                ensures
                    b == (e.key_set == key_set && e.status.live())
                { e.key_set == key_set && e.status.is_live() },
            Ghost(keeps(key_set)),
        );
        if kept.is_some() {
            return Err(Status::ConstraintError);
        }
        self.key_sets.retain(
            |k: &u16| -> (b: bool)
                ensures
                    b == (*k != key_set)
                { *k != key_set },
            Ghost(not_key_set(key_set)),
        );
        Ok(())
    }

    /// `AddGroup`.
    pub fn add_group(&mut self, entry: GroupEntry) -> (r: Result<(), Status>)
        ensures
            (final(self)@, refusal(r)) == group_added(old(self)@, entry@, G as nat),
    {
        if let Some(cat) = entry.cat {
            if cat < GROUP_CAT_MIN || cat > GROUP_CAT_MAX || is_reserved_cat(cat) {
                return Err(Status::ConstraintError);
            }
        }
        if self.group_at(entry.group).is_some() {
            return Err(Status::ConstraintError);
        }
        if let Some(key_set) = entry.key_set {
            if !self.has_key_set(key_set) {
                return Err(Status::NotFound);
            }
        }
        if self.groups.add(entry) {
            Ok(())
        } else {
            Err(Status::ResourceExhausted)
        }
    }

    /// `RemoveGroup`.
    pub fn remove_group(&mut self, group: GroupId) -> (r: Result<(), Status>)
        ensures
            (final(self)@, refusal(r)) == group_removed(old(self)@, group),
    {
        match self.group_at(group) {
            None => return Err(Status::NotFound),
            Some(i) => {
                proof {
                    assert(self.groups.models()[i as int] == self.groups@[i as int]@);
                }
                if let Some(cat) = self.groups.get(i).cat {
                    if is_reserved_cat(cat) {
                        return Err(Status::ConstraintError);
                    }
                }
            },
        }
        let member: Option<usize> = self.endpoint_groups.position(
            |m: &EndpointGroup| -> (b: bool)
                ensures
                    b == (m.group == group && m.status.live())
                { m.group.0 == group.0 && m.status.is_live() },
            Ghost(lives_in(group)),
        );
        if member.is_some() {
            return Err(Status::ConstraintError);
        }
        self.groups.keep(
            |g: &GroupEntry| -> (b: bool)
                ensures
                    b == (g.group != group)
                { g.group.0 != group.0 },
            Ghost(not_group(group)),
        );
        Ok(())
    }

    /// `AddPendingNode`.
    pub fn add_pending_node(&mut self, node: NodeId, friendly_name: &str, now: u32) -> (r: Result<(), Status>)
        ensures
            (final(self)@, refusal(r)) == node_added(old(self)@, node, friendly_name@, now, N as nat),
    {
        if self.node_at(node).is_some() {
            return Err(Status::ConstraintError);
        }
        let friendly_name: FriendlyName = match Text::copy_of(friendly_name) {
            None => return Err(Status::ConstraintError),
            Some(name) => name,
        };
        if self.nodes.add(NodeEntry { node, friendly_name, commissioning: StatusEntry::pending(now) }) {
            Ok(())
        } else {
            Err(Status::ResourceExhausted)
        }
    }

    fn advance(&mut self, i: usize, status: StatusEntry)
        requires
            i < old(self)@.nodes.len(),
        ensures
            final(self)@ == advanced(old(self)@, i as int, status),
    {
        proof {
            assert(self.nodes.models()[i as int] == self.nodes@[i as int]@);
        }
        let node: NodeId = self.nodes.get(i).node;
        if let Some(friendly_name) = Text::copy_of(self.nodes.get(i).friendly_name.as_str()) {
            self.nodes.replace(i, NodeEntry { node, friendly_name, commissioning: status });
        }
    }

    /// `RefreshNode`.
    pub fn refresh_node(&mut self, node: NodeId, now: u32) -> (r: Result<(), Status>)
        ensures
            (final(self)@, refusal(r)) == node_refreshing(old(self)@, node, now),
    {
        match self.node_at(node) {
            None => Err(Status::NotFound),
            Some(i) => {
                self.advance(i, StatusEntry::pending(now));
                Ok(())
            },
        }
    }

    /// Notes how a refresh ended.
    pub fn node_refreshed(&mut self, node: NodeId, outcome: Result<(), Status>, now: u32)
        ensures
            final(self)@ == node_was_refreshed(old(self)@, node, outcome, now),
    {
        match self.node_at(node) {
            None => {},
            Some(i) => {
                let status: StatusEntry = match outcome {
                    Ok(_) => StatusEntry { state: DatastoreStateEnum::Committed, updated_at: now, failure: None },
                    Err(status) => StatusEntry {
                        state: DatastoreStateEnum::CommitFailed,
                        updated_at: now,
                        failure: Some(status),
                    },
                };
                self.advance(i, status);
            },
        }
    }

    /// `RemoveNode`.
    pub fn remove_node(&mut self, node: NodeId) -> (r: Result<(), Status>)
        ensures
            (final(self)@, refusal(r)) == node_removed(old(self)@, node),
    {
        if self.node_at(node).is_none() {
            return Err(Status::NotFound);
        }
        self.nodes.keep(
            |n: &NodeEntry| -> (b: bool)
                ensures
                    b == (n.node != node)
                { n.node.0 != node.0 },
            Ghost(not_node(node)),
        );
        self.node_key_sets.retain(
            |e: &NodeKeySet| -> (b: bool)
                ensures
                    b == (e.node != node)
                { e.node.0 != node.0 },
            Ghost(held_elsewhere(node)),
        );
        self.endpoint_groups.retain(
            |m: &EndpointGroup| -> (b: bool)
                ensures
                    b == (m.node != node)
                { m.node.0 != node.0 },
            Ghost(member_elsewhere(node)),
        );
        Ok(())
    }

    /// `AddAdmin`.
    pub fn add_admin(&mut self, entry: AdminEntry) -> (r: Result<(), Status>)
        ensures
            (final(self)@, refusal(r)) == admin_added(old(self)@, entry@, A as nat),
    {
        if entry.icac_len > ICAC_MAX || self.admin_at(entry.node).is_some() {
            return Err(Status::ConstraintError);
        }
        if self.admins.add(entry) {
            Ok(())
        } else {
            Err(Status::ResourceExhausted)
        }
    }

    /// `RemoveAdmin`.
    pub fn remove_admin(&mut self, node: NodeId) -> (r: Result<(), Status>)
        ensures
            (final(self)@, refusal(r)) == admin_removed(old(self)@, node),
    {
        if self.admin_at(node).is_none() {
            return Err(Status::NotFound);
        }
        self.admins.keep(
            |a: &AdminEntry| -> (b: bool)
                ensures
                    b == (a.node != node)
                { a.node.0 != node.0 },
            Ghost(not_admin(node)),
        );
        Ok(())
    }

    /// Gives a node a key set, to be applied.
    pub fn add_node_key_set(&mut self, node: NodeId, key_set: u16, now: u32) -> (r: Result<(), Status>)
        ensures
            (final(self)@, refusal(r)) == node_key_set_added(old(self)@, node, key_set, now, M as nat),
    {
        if self.node_at(node).is_none() {
            return Err(Status::NotFound);
        }
        if !self.has_key_set(key_set) {
            return Err(Status::NotFound);
        }
        let held: Option<usize> = self.node_key_sets.position(
            |e: &NodeKeySet| -> (b: bool)
                ensures
                    b == (e.node == node && e.key_set == key_set)
                { e.node.0 == node.0 && e.key_set == key_set },
            Ghost(holds(node, key_set)),
        );
        if held.is_some() {
            return Err(Status::ConstraintError);
        }
        if self.node_key_sets.push(NodeKeySet { node, key_set, status: StatusEntry::pending(now) }) {
            Ok(())
        } else {
            Err(Status::ResourceExhausted)
        }
    }

    /// `AddGroupIDToEndpointForNode`.
    pub fn add_group_to_endpoint(&mut self, node: NodeId, endpoint: EndpointId, group: GroupId, now: u32) -> (r: Result<(), Status>)
        ensures
            (final(self)@, refusal(r)) == member_added(old(self)@, node, endpoint, group, now, M as nat),
    {
        if self.node_at(node).is_none() {
            return Err(Status::NotFound);
        }
        if self.group_at(group).is_none() {
            return Err(Status::NotFound);
        }
        if self.member_at(node, endpoint, group).is_some() {
            return Err(Status::ConstraintError);
        }
        if self.endpoint_groups.push(EndpointGroup { node, endpoint, group, status: StatusEntry::pending(now) }) {
            Ok(())
        } else {
            Err(Status::ResourceExhausted)
        }
    }

    /// `RemoveGroupIDFromEndpointForNode`.
    pub fn remove_group_from_endpoint(&mut self, node: NodeId, endpoint: EndpointId, group: GroupId, now: u32) -> (r: Result<
        (),
        Status,
    >)
        ensures
            (final(self)@, refusal(r)) == member_leaving(old(self)@, node, endpoint, group, now),
    {
        match self.member_at(node, endpoint, group) {
            None => Err(Status::NotFound),
            Some(i) => {
                let entry: EndpointGroup = *self.endpoint_groups.get(i);
                self.endpoint_groups.set(
                    i,
                    EndpointGroup {
                        status: StatusEntry { state: DatastoreStateEnum::DeletePending, updated_at: now, failure: None },
                        ..entry
                    },
                );
                Ok(())
            },
        }
    }

    /// A deletion reached its node.
    pub fn deletion_applied(&mut self, node: NodeId, endpoint: EndpointId, group: GroupId)
        ensures
            final(self)@ == member_left(old(self)@, node, endpoint, group),
    {
        self.endpoint_groups.retain(
            |m: &EndpointGroup| -> (b: bool)
                ensures
                    b == (!(m.node == node && m.endpoint == endpoint && m.group == group && !m.status.live()))
                {
                    !(m.node.0 == node.0 && m.endpoint == endpoint && m.group.0 == group.0 && !m.status.is_live())
                },
            Ghost(not_deleted(node, endpoint, group)),
        );
    }

    fn all_due(&self) -> (d: Vec<Option<NodeId>>)
        ensures
            d@ == dues(self@),
    {
        let mut d: Vec<Option<NodeId>> = Vec::new();
        let mut i: usize = 0;
        let ghost a = self@.nodes.map_values(|n: NodeModel| due(n.node, n.commissioning));
        let ghost b = self@.node_key_sets.map_values(|e: NodeKeySet| due(e.node, e.status));
        let ghost c = self@.endpoint_groups.map_values(|e: EndpointGroup| due(e.node, e.status));
        let nodes: &[NodeEntry] = self.nodes.as_slice();
        while i < nodes.len()
            invariant
                nodes@ == self.nodes@,
                i <= nodes@.len(),
                a == self@.nodes.map_values(|n: NodeModel| due(n.node, n.commissioning)),
                d@ =~= a.take(i as int),
            decreases nodes.len() - i,
        {
            proof {
                assert(a[i as int] == due(nodes@[i as int].node, nodes@[i as int].commissioning));
            }
            d.push(due_of(nodes[i].node, nodes[i].commissioning));
            i = i + 1;
        }
        proof {
            assert(d@ =~= a);
        }
        i = 0;
        let held: &[NodeKeySet] = self.node_key_sets.as_slice();
        while i < held.len()
            invariant
                held@ == self.node_key_sets@,
                i <= held@.len(),
                b == self@.node_key_sets.map_values(|e: NodeKeySet| due(e.node, e.status)),
                d@ =~= a + b.take(i as int),
            decreases held.len() - i,
        {
            d.push(due_of(held[i].node, held[i].status));
            i = i + 1;
        }
        proof {
            assert(d@ =~= a + b);
        }
        i = 0;
        let members: &[EndpointGroup] = self.endpoint_groups.as_slice();
        while i < members.len()
            invariant
                members@ == self.endpoint_groups@,
                i <= members@.len(),
                c == self@.endpoint_groups.map_values(|e: EndpointGroup| due(e.node, e.status)),
                d@ =~= a + b + c.take(i as int),
            decreases members.len() - i,
        {
            d.push(due_of(members[i].node, members[i].status));
            i = i + 1;
        }
        proof {
            assert(d@ =~= dues(self@));
        }
        d
    }

    /// The nodes that wait for something, each once, as far as there is room.
    pub fn nodes_needing_review<const R: usize>(&self) -> (out: List<NodeId, R>)
        ensures
            out@ == noted(dues(self@), dues(self@).len() as int, R as nat),
    {
        let d: Vec<Option<NodeId>> = self.all_due();
        let mut out: List<NodeId, R> = List::new();
        let mut i: usize = 0;
        while i < d.len()
            invariant
                i <= d@.len(),
                out@ == noted(d@, i as int, R as nat),
            decreases d.len() - i,
        {
            if let Some(node) = d[i] {
                let at: Option<usize> = out.position(
                    |n: &NodeId| -> (b: bool)
                        ensures
                            b == (*n == node)
                        { n.0 == node.0 },
                    Ghost(same_node(node)),
                );
                proof {
                    bounded::lemma_first(out@, same_node(node));
                }
                if at.is_none() {
                    let _ = out.push(node);
                }
            }
            i = i + 1;
        }
        out
    }
}

/// A node.
pub open spec fn same_node(node: NodeId) -> spec_fn(NodeId) -> bool {
    |n: NodeId| n == node
}

fn due_of(node: NodeId, status: StatusEntry) -> (d: Option<NodeId>)
    ensures
        d == due(node, status),
{
    match status.state {
        DatastoreStateEnum::Committed => None,
        _ => Some(node),
    }
}

/// The cluster's definition.
pub open spec fn defined() -> DefinitionModel {
    DefinitionModel {
        id: ID,
        revision: REVISION,
        features: 0,
        attributes: seq![
            conformance::reads(ANCHOR_ROOT_CA, Conformance::Mandatory),
            conformance::reads(ANCHOR_NODE_ID, Conformance::Mandatory),
            conformance::reads(ANCHOR_VENDOR_ID, Conformance::Mandatory),
            conformance::reads(FRIENDLY_NAME, Conformance::Mandatory),
            conformance::reads(GROUP_KEY_SET_LIST, Conformance::Mandatory),
            conformance::reads(GROUP_LIST, Conformance::Mandatory),
            conformance::reads(NODE_LIST, Conformance::Mandatory),
            conformance::reads(ADMIN_LIST, Conformance::Mandatory),
            conformance::reads(STATUS, Conformance::Mandatory),
            conformance::reads(ENDPOINT_GROUP_ID_LIST, Conformance::Mandatory),
            conformance::reads(ENDPOINT_BINDING_LIST, Conformance::Mandatory),
            conformance::reads(NODE_KEY_SET_LIST, Conformance::Mandatory),
            conformance::reads(NODE_ACL_LIST, Conformance::Mandatory),
            conformance::reads(NODE_ENDPOINT_LIST, Conformance::Mandatory),
        ],
        commands: seq![
            conformance::invokes(ADD_KEY_SET, Privilege::Administer, None, Conformance::Mandatory),
            conformance::invokes(UPDATE_KEY_SET, Privilege::Administer, None, Conformance::Mandatory),
            conformance::invokes(REMOVE_KEY_SET, Privilege::Administer, None, Conformance::Mandatory),
            conformance::invokes(ADD_GROUP, Privilege::Administer, None, Conformance::Mandatory),
            conformance::invokes(UPDATE_GROUP, Privilege::Administer, None, Conformance::Mandatory),
            conformance::invokes(REMOVE_GROUP, Privilege::Administer, None, Conformance::Mandatory),
            conformance::invokes(ADD_ADMIN, Privilege::Administer, None, Conformance::Mandatory),
            conformance::invokes(UPDATE_ADMIN, Privilege::Administer, None, Conformance::Mandatory),
            conformance::invokes(REMOVE_ADMIN, Privilege::Administer, None, Conformance::Mandatory),
            conformance::invokes(ADD_PENDING_NODE, Privilege::Administer, None, Conformance::Mandatory),
            conformance::invokes(REFRESH_NODE, Privilege::Administer, None, Conformance::Mandatory),
            conformance::invokes(UPDATE_NODE, Privilege::Administer, None, Conformance::Mandatory),
            conformance::invokes(REMOVE_NODE, Privilege::Administer, None, Conformance::Mandatory),
            conformance::invokes(UPDATE_ENDPOINT_FOR_NODE, Privilege::Administer, None, Conformance::Mandatory),
            conformance::invokes(ADD_GROUP_ID_TO_ENDPOINT_FOR_NODE, Privilege::Administer, None, Conformance::Mandatory),
            conformance::invokes(
                REMOVE_GROUP_ID_FROM_ENDPOINT_FOR_NODE,
                Privilege::Administer,
                None,
                Conformance::Mandatory,
            ),
            conformance::invokes(ADD_BINDING_TO_ENDPOINT_FOR_NODE, Privilege::Administer, None, Conformance::Mandatory),
            conformance::invokes(REMOVE_BINDING_FROM_ENDPOINT_FOR_NODE, Privilege::Administer, None, Conformance::Mandatory),
            conformance::invokes(ADD_ACL_TO_NODE, Privilege::Administer, None, Conformance::Mandatory),
            conformance::invokes(REMOVE_ACL_FROM_NODE, Privilege::Administer, None, Conformance::Mandatory),
        ],
        generated: Seq::empty(),
        events: Seq::empty(),
    }
}

/// The cluster's definition.
pub fn definition() -> (d: Definition)
    ensures
        d@ == defined(),
{
    let d: Definition = Definition {
        id: ID,
        revision: REVISION,
        features: 0,
        attributes: vec![
            conformance::readable(ANCHOR_ROOT_CA, Conformance::Mandatory),
            conformance::readable(ANCHOR_NODE_ID, Conformance::Mandatory),
            conformance::readable(ANCHOR_VENDOR_ID, Conformance::Mandatory),
            conformance::readable(FRIENDLY_NAME, Conformance::Mandatory),
            conformance::readable(GROUP_KEY_SET_LIST, Conformance::Mandatory),
            conformance::readable(GROUP_LIST, Conformance::Mandatory),
            conformance::readable(NODE_LIST, Conformance::Mandatory),
            conformance::readable(ADMIN_LIST, Conformance::Mandatory),
            conformance::readable(STATUS, Conformance::Mandatory),
            conformance::readable(ENDPOINT_GROUP_ID_LIST, Conformance::Mandatory),
            conformance::readable(ENDPOINT_BINDING_LIST, Conformance::Mandatory),
            conformance::readable(NODE_KEY_SET_LIST, Conformance::Mandatory),
            conformance::readable(NODE_ACL_LIST, Conformance::Mandatory),
            conformance::readable(NODE_ENDPOINT_LIST, Conformance::Mandatory),
        ],
        commands: vec![
            conformance::invocable(ADD_KEY_SET, Privilege::Administer, None, Conformance::Mandatory),
            conformance::invocable(UPDATE_KEY_SET, Privilege::Administer, None, Conformance::Mandatory),
            conformance::invocable(REMOVE_KEY_SET, Privilege::Administer, None, Conformance::Mandatory),
            conformance::invocable(ADD_GROUP, Privilege::Administer, None, Conformance::Mandatory),
            conformance::invocable(UPDATE_GROUP, Privilege::Administer, None, Conformance::Mandatory),
            conformance::invocable(REMOVE_GROUP, Privilege::Administer, None, Conformance::Mandatory),
            conformance::invocable(ADD_ADMIN, Privilege::Administer, None, Conformance::Mandatory),
            conformance::invocable(UPDATE_ADMIN, Privilege::Administer, None, Conformance::Mandatory),
            conformance::invocable(REMOVE_ADMIN, Privilege::Administer, None, Conformance::Mandatory),
            conformance::invocable(ADD_PENDING_NODE, Privilege::Administer, None, Conformance::Mandatory),
            conformance::invocable(REFRESH_NODE, Privilege::Administer, None, Conformance::Mandatory),
            conformance::invocable(UPDATE_NODE, Privilege::Administer, None, Conformance::Mandatory),
            conformance::invocable(REMOVE_NODE, Privilege::Administer, None, Conformance::Mandatory),
            conformance::invocable(UPDATE_ENDPOINT_FOR_NODE, Privilege::Administer, None, Conformance::Mandatory),
            conformance::invocable(ADD_GROUP_ID_TO_ENDPOINT_FOR_NODE, Privilege::Administer, None, Conformance::Mandatory),
            conformance::invocable(
                REMOVE_GROUP_ID_FROM_ENDPOINT_FOR_NODE,
                Privilege::Administer,
                None,
                Conformance::Mandatory,
            ),
            conformance::invocable(ADD_BINDING_TO_ENDPOINT_FOR_NODE, Privilege::Administer, None, Conformance::Mandatory),
            conformance::invocable(
                REMOVE_BINDING_FROM_ENDPOINT_FOR_NODE,
                Privilege::Administer,
                None,
                Conformance::Mandatory,
            ),
            conformance::invocable(ADD_ACL_TO_NODE, Privilege::Administer, None, Conformance::Mandatory),
            conformance::invocable(REMOVE_ACL_FROM_NODE, Privilege::Administer, None, Conformance::Mandatory),
        ],
        generated: Vec::new(),
        events: Vec::new(),
    };
    proof {
        assert(d@.attributes =~= defined().attributes);
        assert(d@.commands =~= defined().commands);
    }
    d
}

/// How far a thing has come, on the wire.
pub open spec fn status_bytes(tag: Tag, s: StatusEntry) -> Seq<u8> {
    tlv::structure_bytes(
        tag,
        tlv::unsigned_bytes(Tag::Context(0), s.state.number()) + tlv::unsigned_bytes(Tag::Context(1), s.updated_at as u64)
            + tlv::unsigned_bytes(
            Tag::Context(2),
            match s.failure {
                Some(f) => im::status_value(f) as u64,
                None => 0,
            },
        ),
    )
}

fn encode_status(out: &mut Vec<u8>, tag: Tag, s: &StatusEntry)
    ensures
        final(out)@ == old(out)@ + status_bytes(tag, *s),
{
    let mut body: Vec<u8> = Vec::new();
    tlv::put_unsigned(&mut body, Tag::Context(0), s.state.as_number());
    tlv::put_unsigned(&mut body, Tag::Context(1), s.updated_at as u64);
    let failure: u64 = match s.failure {
        Some(f) => f.value() as u64,
        None => 0,
    };
    tlv::put_unsigned(&mut body, Tag::Context(2), failure);
    proof {
        assert(body@ =~= tlv::unsigned_bytes(Tag::Context(0), s.state.number()) + tlv::unsigned_bytes(
            Tag::Context(1),
            s.updated_at as u64,
        ) + tlv::unsigned_bytes(Tag::Context(2), failure));
    }
    tlv::put_structure(out, tag, &body);
}

/// A number, widened.
pub open spec fn wide(v: Option<u16>) -> Option<u64> {
    match v {
        Some(v) => Some(v as u64),
        None => None,
    }
}

fn widen(v: Option<u16>) -> (w: Option<u64>)
    ensures
        w == wide(v),
{
    match v {
        Some(v) => Some(v as u64),
        None => None,
    }
}

impl ToTlv for NodeEntry {
    open spec fn tlv(self, tag: Tag) -> Seq<u8> {
        tlv::structure_bytes(
            tag,
            tlv::unsigned_bytes(Tag::Context(0), self.node.0) + tlv::text_bytes(Tag::Context(1), self.friendly_name@)
                + status_bytes(Tag::Context(2), self.commissioning),
        )
    }

    fn to_tlv(&self, out: &mut Vec<u8>, tag: Tag) {
        let mut body: Vec<u8> = Vec::new();
        tlv::put_unsigned(&mut body, Tag::Context(0), self.node.0);
        tlv::put_text(&mut body, Tag::Context(1), self.friendly_name.as_str());
        encode_status(&mut body, Tag::Context(2), &self.commissioning);
        proof {
            assert(body@ =~= tlv::unsigned_bytes(Tag::Context(0), self.node.0) + tlv::text_bytes(
                Tag::Context(1),
                self.friendly_name@,
            ) + status_bytes(Tag::Context(2), self.commissioning));
        }
        tlv::put_structure(out, tag, &body);
    }
}

impl ToTlv for GroupEntry {
    open spec fn tlv(self, tag: Tag) -> Seq<u8> {
        tlv::structure_bytes(
            tag,
            tlv::unsigned_bytes(Tag::Context(0), self.group.0 as u64) + tlv::text_bytes(
                Tag::Context(1),
                self.friendly_name@,
            ) + tlv::nullable_bytes(Tag::Context(2), wide(self.key_set)) + tlv::nullable_bytes(
                Tag::Context(3),
                wide(self.cat),
            ) + tlv::nullable_bytes(Tag::Context(4), wide(self.cat_version)) + tlv::unsigned_bytes(
                Tag::Context(5),
                self.permission.number(),
            ),
        )
    }

    fn to_tlv(&self, out: &mut Vec<u8>, tag: Tag) {
        let mut body: Vec<u8> = Vec::new();
        tlv::put_unsigned(&mut body, Tag::Context(0), self.group.0 as u64);
        tlv::put_text(&mut body, Tag::Context(1), self.friendly_name.as_str());
        tlv::put_nullable(&mut body, Tag::Context(2), widen(self.key_set));
        tlv::put_nullable(&mut body, Tag::Context(3), widen(self.cat));
        tlv::put_nullable(&mut body, Tag::Context(4), widen(self.cat_version));
        tlv::put_unsigned(&mut body, Tag::Context(5), self.permission.as_number());
        proof {
            assert(body@ =~= tlv::unsigned_bytes(Tag::Context(0), self.group.0 as u64) + tlv::text_bytes(
                Tag::Context(1),
                self.friendly_name@,
            ) + tlv::nullable_bytes(Tag::Context(2), wide(self.key_set)) + tlv::nullable_bytes(
                Tag::Context(3),
                wide(self.cat),
            ) + tlv::nullable_bytes(Tag::Context(4), wide(self.cat_version)) + tlv::unsigned_bytes(
                Tag::Context(5),
                self.permission.number(),
            ));
        }
        tlv::put_structure(out, tag, &body);
    }
}

impl ToTlv for AdminEntry {
    open spec fn tlv(self, tag: Tag) -> Seq<u8> {
        tlv::structure_bytes(
            tag,
            tlv::unsigned_bytes(Tag::Context(0), self.node.0) + tlv::text_bytes(Tag::Context(1), self.friendly_name@)
                + tlv::unsigned_bytes(Tag::Context(2), self.vendor.0 as u64),
        )
    }

    fn to_tlv(&self, out: &mut Vec<u8>, tag: Tag) {
        let mut body: Vec<u8> = Vec::new();
        tlv::put_unsigned(&mut body, Tag::Context(0), self.node.0);
        tlv::put_text(&mut body, Tag::Context(1), self.friendly_name.as_str());
        tlv::put_unsigned(&mut body, Tag::Context(2), self.vendor.0 as u64);
        proof {
            assert(body@ =~= tlv::unsigned_bytes(Tag::Context(0), self.node.0) + tlv::text_bytes(
                Tag::Context(1),
                self.friendly_name@,
            ) + tlv::unsigned_bytes(Tag::Context(2), self.vendor.0 as u64));
        }
        tlv::put_structure(out, tag, &body);
    }
}

impl ToTlv for NodeKeySet {
    open spec fn tlv(self, tag: Tag) -> Seq<u8> {
        tlv::structure_bytes(
            tag,
            tlv::unsigned_bytes(Tag::Context(0), self.node.0) + tlv::unsigned_bytes(Tag::Context(1), self.key_set as u64)
                + status_bytes(Tag::Context(2), self.status),
        )
    }

    fn to_tlv(&self, out: &mut Vec<u8>, tag: Tag) {
        let mut body: Vec<u8> = Vec::new();
        tlv::put_unsigned(&mut body, Tag::Context(0), self.node.0);
        tlv::put_unsigned(&mut body, Tag::Context(1), self.key_set as u64);
        encode_status(&mut body, Tag::Context(2), &self.status);
        proof {
            assert(body@ =~= tlv::unsigned_bytes(Tag::Context(0), self.node.0) + tlv::unsigned_bytes(
                Tag::Context(1),
                self.key_set as u64,
            ) + status_bytes(Tag::Context(2), self.status));
        }
        tlv::put_structure(out, tag, &body);
    }
}

impl ToTlv for EndpointGroup {
    open spec fn tlv(self, tag: Tag) -> Seq<u8> {
        tlv::structure_bytes(
            tag,
            tlv::unsigned_bytes(Tag::Context(0), self.node.0) + tlv::unsigned_bytes(Tag::Context(1), self.endpoint as u64)
                + tlv::unsigned_bytes(Tag::Context(2), self.group.0 as u64) + status_bytes(Tag::Context(3), self.status),
        )
    }

    fn to_tlv(&self, out: &mut Vec<u8>, tag: Tag) {
        let mut body: Vec<u8> = Vec::new();
        tlv::put_unsigned(&mut body, Tag::Context(0), self.node.0);
        tlv::put_unsigned(&mut body, Tag::Context(1), self.endpoint as u64);
        tlv::put_unsigned(&mut body, Tag::Context(2), self.group.0 as u64);
        encode_status(&mut body, Tag::Context(3), &self.status);
        proof {
            assert(body@ =~= tlv::unsigned_bytes(Tag::Context(0), self.node.0) + tlv::unsigned_bytes(
                Tag::Context(1),
                self.endpoint as u64,
            ) + tlv::unsigned_bytes(Tag::Context(2), self.group.0 as u64) + status_bytes(Tag::Context(3), self.status));
        }
        tlv::put_structure(out, tag, &body);
    }
}

/// A key set as an item of a list.
pub open spec fn key_set_bytes() -> spec_fn(u16) -> Seq<u8> {
    |k: u16| tlv::structure_bytes(Tag::Anonymous, tlv::unsigned_bytes(Tag::Context(0), k as u64))
}

fn encode_key_sets(out: &mut Vec<u8>, tag: Tag, items: &[u16])
    ensures
        final(out)@ == old(out)@ + tlv::array_bytes(tag, tlv::concat(items@, key_set_bytes())),
{
    let mut body: Vec<u8> = Vec::new();
    let mut i: usize = 0;
    proof {
        assert(items@.take(0) =~= Seq::<u16>::empty());
        assert(body@ =~= tlv::concat(items@.take(0), key_set_bytes()));
    }
    while i < items.len()
        invariant
            i <= items@.len(),
            body@ == tlv::concat(items@.take(i as int), key_set_bytes()),
        decreases items.len() - i,
    {
        let mut one: Vec<u8> = Vec::new();
        tlv::put_unsigned(&mut one, Tag::Context(0), items[i] as u64);
        proof {
            assert(one@ =~= tlv::unsigned_bytes(Tag::Context(0), items@[i as int] as u64));
            tlv::lemma_concat_take(items@, i as int, key_set_bytes());
        }
        tlv::put_structure(&mut body, Tag::Anonymous, &one);
        i = i + 1;
    }
    proof {
        assert(items@.take(i as int) =~= items@);
    }
    tlv::put_array(out, tag, &body);
}

/// What an attribute is answered with.
pub open spec fn attribute_answer<const N: usize, const G: usize, const K: usize, const A: usize, const M: usize>(
    s: Datastore<N, G, K, A, M>,
    id: AttributeId,
    tag: Tag,
) -> ReadAnswer {
    if id == ANCHOR_NODE_ID {
        Ok(
            tlv::nullable_bytes(
                tag,
                match s.anchor {
                    Some((node, _)) => Some(node.0),
                    None => None,
                },
            ),
        )
    } else if id == ANCHOR_VENDOR_ID {
        Ok(
            tlv::nullable_bytes(
                tag,
                match s.anchor {
                    Some((_, vendor)) => Some(vendor.0 as u64),
                    None => None,
                },
            ),
        )
    } else if id == FRIENDLY_NAME {
        Ok(tlv::text_bytes(tag, s.friendly_name@))
    } else if id == GROUP_KEY_SET_LIST {
        Ok(tlv::array_bytes(tag, tlv::concat(s.key_sets@, key_set_bytes())))
    } else if id == NODE_LIST {
        Ok(tlv::members_bytes(tag, s.nodes@))
    } else if id == GROUP_LIST {
        Ok(tlv::members_bytes(tag, s.groups@))
    } else if id == ADMIN_LIST {
        Ok(tlv::members_bytes(tag, s.admins@))
    } else if id == NODE_KEY_SET_LIST {
        Ok(tlv::members_bytes(tag, s.node_key_sets@))
    } else if id == ENDPOINT_GROUP_ID_LIST {
        Ok(tlv::members_bytes(tag, s.endpoint_groups@))
    } else {
        Err(Status::UnsupportedAttribute)
    }
}

/// What a permission's number stands for.
pub open spec fn permission_of(v: u8) -> Option<DatastoreAccessControlEntryPrivilegeEnum> {
    if v == 1 {
        Some(DatastoreAccessControlEntryPrivilegeEnum::View)
    } else if v == 2 {
        Some(DatastoreAccessControlEntryPrivilegeEnum::ProxyView)
    } else if v == 3 {
        Some(DatastoreAccessControlEntryPrivilegeEnum::Operate)
    } else if v == 4 {
        Some(DatastoreAccessControlEntryPrivilegeEnum::Manage)
    } else if v == 5 {
        Some(DatastoreAccessControlEntryPrivilegeEnum::Administer)
    } else {
        None
    }
}

fn permission_from(v: u8) -> (p: Option<DatastoreAccessControlEntryPrivilegeEnum>)
    ensures
        p == permission_of(v),
{
    match v {
        1 => Some(DatastoreAccessControlEntryPrivilegeEnum::View),
        2 => Some(DatastoreAccessControlEntryPrivilegeEnum::ProxyView),
        3 => Some(DatastoreAccessControlEntryPrivilegeEnum::Operate),
        4 => Some(DatastoreAccessControlEntryPrivilegeEnum::Manage),
        5 => Some(DatastoreAccessControlEntryPrivilegeEnum::Administer),
        _ => None,
    }
}

/// The fields of a command about a key set or a group.
pub open spec fn id_schema() -> Seq<Field> {
    seq![Field(0, Kind::U16, Need::Required)]
}

/// The fields of a command about a node.
pub open spec fn node_schema() -> Seq<Field> {
    seq![Field(0, Kind::U64, Need::Required)]
}

/// The fields of `AddKeySet`.
pub open spec fn key_set_schema() -> Seq<Field> {
    seq![Field(0, Kind::Structure, Need::Required)]
}

/// The fields of `AddGroup`.
pub open spec fn group_schema() -> Seq<Field> {
    seq![
        Field(0, Kind::U16, Need::Required),
        Field(1, Kind::Text, Need::Required),
        Field(2, Kind::U16, Need::Nullable),
        Field(3, Kind::U16, Need::Nullable),
        Field(4, Kind::U16, Need::Nullable),
        Field(5, Kind::U8, Need::Required),
    ]
}

/// The fields of `AddAdmin`.
pub open spec fn admin_schema() -> Seq<Field> {
    seq![
        Field(1, Kind::U64, Need::Required),
        Field(2, Kind::Text, Need::Required),
        Field(3, Kind::U16, Need::Required),
        Field(4, Kind::Octets, Need::Required),
    ]
}

/// The fields of `AddPendingNode`.
pub open spec fn pending_schema() -> Seq<Field> {
    seq![Field(0, Kind::U64, Need::Required), Field(1, Kind::Text, Need::Required)]
}

/// The fields of a command about a membership.
pub open spec fn member_schema() -> Seq<Field> {
    seq![
        Field(0, Kind::U64, Need::Required),
        Field(1, Kind::U16, Need::Required),
        Field(2, Kind::U16, Need::Required),
    ]
}

/// The identifier of a command about a key set or a group, or what is wrong with it.
pub open spec fn id_decoded(b: Seq<u8>) -> Result<u16, Status> {
    match fields::decode(b, id_schema()) {
        Err(status) => Err(status),
        Ok(items) => match fields::num16(items, 0) {
            Some(id) => Ok(id),
            None => Err(Status::InvalidCommand),
        },
    }
}

/// The node of a command about one, or what is wrong with it.
pub open spec fn node_decoded(b: Seq<u8>) -> Result<NodeId, Status> {
    match fields::decode(b, node_schema()) {
        Err(status) => Err(status),
        Ok(items) => match fields::num(items, 0) {
            Some(id) => Ok(NodeId(id)),
            None => Err(Status::InvalidCommand),
        },
    }
}

/// The key set of `AddKeySet`, or what is wrong with it.
pub open spec fn key_set_decoded(b: Seq<u8>) -> Result<u16, Status> {
    match fields::decode(b, key_set_schema()) {
        Err(status) => Err(status),
        Ok(items) => match fields::container(items, 0) {
            None => Err(Status::InvalidCommand),
            Some(start) => match fields::decode_at(b, start as int, group_key_management::set_schema()) {
                Err(status) => Err(status),
                Ok(inner) => match fields::num16(inner, 0) {
                    Some(id) => Ok(id),
                    None => Err(Status::InvalidCommand),
                },
            },
        },
    }
}

/// The group of `AddGroup`, or what is wrong with it.
pub open spec fn group_decoded(b: Seq<u8>) -> Result<GroupModel, Status> {
    match fields::decode(b, group_schema()) {
        Err(status) => Err(status),
        Ok(items) => match (fields::num16(items, 0), fields::text(b, items, 1), fields::num8(items, 5)) {
            (Some(group), Some(name), Some(permission)) => match permission_of(permission) {
                None => Err(Status::ConstraintError),
                Some(permission) => if utf8::encode_utf8(name).len() > FRIENDLY_NAME_MAX {
                    Err(Status::ConstraintError)
                } else {
                    Ok(
                        GroupModel {
                            group: GroupId(group),
                            friendly_name: name,
                            key_set: fields::num16(items, 2),
                            cat: fields::num16(items, 3),
                            cat_version: fields::num16(items, 4),
                            permission,
                        },
                    )
                },
            },
            _ => Err(Status::InvalidCommand),
        },
    }
}

/// The administrator of `AddAdmin`, or what is wrong with it.
pub open spec fn admin_decoded(b: Seq<u8>) -> Result<AdminModel, Status> {
    match fields::decode(b, admin_schema()) {
        Err(status) => Err(status),
        Ok(items) => match (
            fields::num(items, 1),
            fields::text(b, items, 2),
            fields::num16(items, 3),
            fields::octets(b, items, 4),
        ) {
            (Some(node), Some(name), Some(vendor), Some(icac)) => if utf8::encode_utf8(name).len() > FRIENDLY_NAME_MAX {
                Err(Status::ConstraintError)
            } else {
                Ok(
                    AdminModel {
                        node: NodeId(node),
                        friendly_name: name,
                        vendor: VendorId(vendor),
                        icac_len: icac.len() as usize,
                    },
                )
            },
            _ => Err(Status::InvalidCommand),
        },
    }
}

/// The node of `AddPendingNode` and its name, or what is wrong with it.
pub open spec fn pending_decoded(b: Seq<u8>) -> Result<(NodeId, Seq<char>), Status> {
    match fields::decode(b, pending_schema()) {
        Err(status) => Err(status),
        Ok(items) => match (fields::num(items, 0), fields::text(b, items, 1)) {
            (Some(node), Some(name)) => Ok((NodeId(node), name)),
            _ => Err(Status::InvalidCommand),
        },
    }
}

/// The membership that a command is about, or what is wrong with it.
pub open spec fn member_decoded(b: Seq<u8>) -> Result<(NodeId, EndpointId, GroupId), Status> {
    match fields::decode(b, member_schema()) {
        Err(status) => Err(status),
        Ok(items) => match (fields::num(items, 0), fields::num16(items, 1), fields::num16(items, 2)) {
            (Some(node), Some(endpoint), Some(group)) => Ok((NodeId(node), endpoint, GroupId(group))),
            _ => Err(Status::InvalidCommand),
        },
    }
}

/// Whole seconds, or as many as can be told.
pub open spec fn seconds(now: Instant) -> u32 {
    if now.micros / 1_000_000 > u32::MAX {
        u32::MAX
    } else {
        (now.micros / 1_000_000) as u32
    }
}

/// What a command does, given its fields.
pub open spec fn changed(m: StoreModel, caps: Caps, command: CommandId, b: Seq<u8>, now: u32) -> (StoreModel, Option<Status>) {
    if command == ADD_KEY_SET {
        match key_set_decoded(b) {
            Err(status) => (m, Some(status)),
            Ok(key_set) => key_set_added(m, key_set, caps.key_sets),
        }
    } else if command == REMOVE_KEY_SET {
        match id_decoded(b) {
            Err(status) => (m, Some(status)),
            Ok(key_set) => key_set_removed(m, key_set),
        }
    } else if command == ADD_GROUP {
        match group_decoded(b) {
            Err(status) => (m, Some(status)),
            Ok(g) => group_added(m, g, caps.groups),
        }
    } else if command == REMOVE_GROUP {
        match id_decoded(b) {
            Err(status) => (m, Some(status)),
            Ok(group) => group_removed(m, GroupId(group)),
        }
    } else if command == ADD_ADMIN {
        match admin_decoded(b) {
            Err(status) => (m, Some(status)),
            Ok(a) => admin_added(m, a, caps.admins),
        }
    } else if command == REMOVE_ADMIN {
        match node_decoded(b) {
            Err(status) => (m, Some(status)),
            Ok(node) => admin_removed(m, node),
        }
    } else if command == ADD_PENDING_NODE {
        match pending_decoded(b) {
            Err(status) => (m, Some(status)),
            Ok((node, name)) => node_added(m, node, name, now, caps.nodes),
        }
    } else if command == REFRESH_NODE {
        match node_decoded(b) {
            Err(status) => (m, Some(status)),
            Ok(node) => node_refreshing(m, node, now),
        }
    } else if command == REMOVE_NODE {
        match node_decoded(b) {
            Err(status) => (m, Some(status)),
            Ok(node) => node_removed(m, node),
        }
    } else if command == ADD_GROUP_ID_TO_ENDPOINT_FOR_NODE {
        match member_decoded(b) {
            Err(status) => (m, Some(status)),
            Ok((node, endpoint, group)) => member_added(m, node, endpoint, group, now, caps.members),
        }
    } else if command == REMOVE_GROUP_ID_FROM_ENDPOINT_FOR_NODE {
        match member_decoded(b) {
            Err(status) => (m, Some(status)),
            Ok((node, endpoint, group)) => member_leaving(m, node, endpoint, group, now),
        }
    } else {
        (m, Some(Status::UnsupportedCommand))
    }
}

/// What a command comes to: it needs an accessing fabric and fields.
pub open spec fn commanded(m: StoreModel, caps: Caps, command: CommandId, data: Option<Seq<u8>>, ctx: InteractionContext) -> (
    StoreModel,
    InvokeAnswer,
) {
    if ctx.accessing() is None {
        (m, im::refused(Status::UnsupportedAccess))
    } else {
        match data {
            None => (m, im::refused(Status::InvalidCommand)),
            Some(b) => {
                let (after, refused) = changed(m, caps, command, b, seconds(ctx.now));
                (
                    after,
                    match refused {
                        None => im::done(),
                        Some(status) => im::refused(status),
                    },
                )
            },
        }
    }
}

fn decode_id(data: &[u8]) -> (r: Result<u16, Status>)
    ensures
        r == id_decoded(data@),
{
    let schema: Vec<Field> = vec![Field(0, Kind::U16, Need::Required)];
    proof {
        assert(schema@ =~= id_schema());
    }
    let f: Fields = match fields::read(data, &schema) {
        Err(status) => return Err(status),
        Ok(f) => f,
    };
    match f.num16(0) {
        Some(id) => Ok(id),
        None => Err(Status::InvalidCommand),
    }
}

fn decode_node(data: &[u8]) -> (r: Result<NodeId, Status>)
    ensures
        r == node_decoded(data@),
{
    let schema: Vec<Field> = vec![Field(0, Kind::U64, Need::Required)];
    proof {
        assert(schema@ =~= node_schema());
    }
    let f: Fields = match fields::read(data, &schema) {
        Err(status) => return Err(status),
        Ok(f) => f,
    };
    match f.num(0) {
        Some(id) => Ok(NodeId(id)),
        None => Err(Status::InvalidCommand),
    }
}

fn decode_key_set(data: &[u8]) -> (r: Result<u16, Status>)
    ensures
        r == key_set_decoded(data@),
{
    let schema: Vec<Field> = vec![Field(0, Kind::Structure, Need::Required)];
    proof {
        assert(schema@ =~= key_set_schema());
    }
    let f: Fields = match fields::read(data, &schema) {
        Err(status) => return Err(status),
        Ok(f) => f,
    };
    let start: usize = match f.container(0) {
        None => return Err(Status::InvalidCommand),
        Some(start) => start,
    };
    let inner: Vec<Field> = vec![
        Field(0, Kind::U16, Need::Required),
        Field(1, Kind::Enum(1), Need::Required),
        Field(2, Kind::Octets, Need::Nullable),
        Field(3, Kind::U64, Need::Nullable),
        Field(4, Kind::Octets, Need::Nullable),
        Field(5, Kind::U64, Need::Nullable),
        Field(6, Kind::Octets, Need::Nullable),
        Field(7, Kind::U64, Need::Nullable),
        Field(8, Kind::U8, Need::Optional),
        Field(group_key_management::FABRIC_INDEX_FIELD, Kind::U8, Need::Optional),
    ];
    proof {
        assert(inner@ =~= group_key_management::set_schema());
    }
    let g: Fields = match fields::read_at(data, start, &inner) {
        Err(status) => return Err(status),
        Ok(g) => g,
    };
    match g.num16(0) {
        Some(id) => Ok(id),
        None => Err(Status::InvalidCommand),
    }
}

fn decode_group(data: &[u8]) -> (r: Result<GroupEntry, Status>)
    ensures
        match r {
            Ok(g) => group_decoded(data@) == Ok::<GroupModel, Status>(g@),
            Err(status) => group_decoded(data@) == Err::<GroupModel, Status>(status),
        },
{
    let schema: Vec<Field> = vec![
        Field(0, Kind::U16, Need::Required),
        Field(1, Kind::Text, Need::Required),
        Field(2, Kind::U16, Need::Nullable),
        Field(3, Kind::U16, Need::Nullable),
        Field(4, Kind::U16, Need::Nullable),
        Field(5, Kind::U8, Need::Required),
    ];
    proof {
        assert(schema@ =~= group_schema());
    }
    let f: Fields = match fields::read(data, &schema) {
        Err(status) => return Err(status),
        Ok(f) => f,
    };
    match (f.num16(0), f.text(1), f.num8(5)) {
        (Some(group), Some(name), Some(permission)) => {
            let permission: DatastoreAccessControlEntryPrivilegeEnum = match permission_from(permission) {
                None => return Err(Status::ConstraintError),
                Some(permission) => permission,
            };
            match Text::copy_of(name) {
                None => Err(Status::ConstraintError),
                Some(friendly_name) => Ok(
                    GroupEntry {
                        group: GroupId(group),
                        friendly_name,
                        key_set: f.num16(2),
                        cat: f.num16(3),
                        cat_version: f.num16(4),
                        permission,
                    },
                ),
            }
        },
        _ => Err(Status::InvalidCommand),
    }
}

fn decode_admin(data: &[u8]) -> (r: Result<AdminEntry, Status>)
    ensures
        match r {
            Ok(a) => admin_decoded(data@) == Ok::<AdminModel, Status>(a@),
            Err(status) => admin_decoded(data@) == Err::<AdminModel, Status>(status),
        },
{
    let schema: Vec<Field> = vec![
        Field(1, Kind::U64, Need::Required),
        Field(2, Kind::Text, Need::Required),
        Field(3, Kind::U16, Need::Required),
        Field(4, Kind::Octets, Need::Required),
    ];
    proof {
        assert(schema@ =~= admin_schema());
    }
    let f: Fields = match fields::read(data, &schema) {
        Err(status) => return Err(status),
        Ok(f) => f,
    };
    match (f.num(1), f.text(2), f.num16(3), f.octets(4)) {
        (Some(node), Some(name), Some(vendor), Some(icac)) => match Text::copy_of(name) {
            None => Err(Status::ConstraintError),
            Some(friendly_name) => Ok(
                AdminEntry { node: NodeId(node), friendly_name, vendor: VendorId(vendor), icac_len: icac.len() },
            ),
        },
        _ => Err(Status::InvalidCommand),
    }
}

fn decode_pending<'a>(data: &'a [u8]) -> (r: Result<(NodeId, &'a str), Status>)
    ensures
        match r {
            Ok((node, name)) => pending_decoded(data@) == Ok::<(NodeId, Seq<char>), Status>((node, name@)),
            Err(status) => pending_decoded(data@) == Err::<(NodeId, Seq<char>), Status>(status),
        },
{
    let schema: Vec<Field> = vec![Field(0, Kind::U64, Need::Required), Field(1, Kind::Text, Need::Required)];
    proof {
        assert(schema@ =~= pending_schema());
    }
    let f: Fields<'a> = match fields::read(data, &schema) {
        Err(status) => return Err(status),
        Ok(f) => f,
    };
    match (f.num(0), f.text(1)) {
        (Some(node), Some(name)) => Ok((NodeId(node), name)),
        _ => Err(Status::InvalidCommand),
    }
}

fn decode_member(data: &[u8]) -> (r: Result<(NodeId, EndpointId, GroupId), Status>)
    ensures
        r == member_decoded(data@),
{
    let schema: Vec<Field> = vec![
        Field(0, Kind::U64, Need::Required),
        Field(1, Kind::U16, Need::Required),
        Field(2, Kind::U16, Need::Required),
    ];
    proof {
        assert(schema@ =~= member_schema());
    }
    let f: Fields = match fields::read(data, &schema) {
        Err(status) => return Err(status),
        Ok(f) => f,
    };
    match (f.num(0), f.num16(1), f.num16(2)) {
        (Some(node), Some(endpoint), Some(group)) => Ok((NodeId(node), endpoint, GroupId(group))),
        _ => Err(Status::InvalidCommand),
    }
}

fn whole_seconds(now: Instant) -> (s: u32)
    ensures
        s == seconds(now),
{
    let s: u64 = now.micros / 1_000_000;
    if s > u32::MAX as u64 {
        u32::MAX
    } else {
        s as u32
    }
}

/// The Joint Fabric Datastore cluster.
pub struct JointFabricDatastore<const N: usize, const G: usize, const K: usize, const A: usize, const M: usize> {
    /// The tables.
    pub store: Datastore<N, G, K, A, M>,
}

impl<const N: usize, const G: usize, const K: usize, const A: usize, const M: usize> JointFabricDatastore<N, G, K, A, M> {
    /// A cluster over a datastore.
    pub fn new(store: Datastore<N, G, K, A, M>) -> (c: Self)
        ensures
            c.store == store,
    {
        JointFabricDatastore { store }
    }

    /// The description for features and for what the product chooses.
    pub fn conforming(features: u32, optional: &Optional) -> (r: Result<Conforming, ErrorCode>)
        ensures
            conformance::outcome(r) == conformance::conform(defined(), features, optional@),
    {
        Conforming::new(&definition(), features, optional)
    }

    /// The tables.
    pub fn store(&self) -> (s: &Datastore<N, G, K, A, M>)
        ensures
            *s == self.store,
    {
        &self.store
    }

    /// Does what a command says.
    pub fn change(&mut self, command: CommandId, data: &[u8], now: u32) -> (r: Result<(), Status>)
        ensures
            (final(self).store@, refusal(r)) == changed(
                old(self).store@,
                Datastore::<N, G, K, A, M>::caps(),
                command,
                data@,
                now,
            ),
    {
        match command {
            ADD_KEY_SET => match decode_key_set(data) {
                Err(status) => Err(status),
                Ok(key_set) => self.store.add_key_set(key_set),
            },
            REMOVE_KEY_SET => match decode_id(data) {
                Err(status) => Err(status),
                Ok(key_set) => self.store.remove_key_set(key_set),
            },
            ADD_GROUP => match decode_group(data) {
                Err(status) => Err(status),
                Ok(entry) => self.store.add_group(entry),
            },
            REMOVE_GROUP => match decode_id(data) {
                Err(status) => Err(status),
                Ok(group) => self.store.remove_group(GroupId(group)),
            },
            ADD_ADMIN => match decode_admin(data) {
                Err(status) => Err(status),
                Ok(entry) => self.store.add_admin(entry),
            },
            REMOVE_ADMIN => match decode_node(data) {
                Err(status) => Err(status),
                Ok(node) => self.store.remove_admin(node),
            },
            ADD_PENDING_NODE => match decode_pending(data) {
                Err(status) => Err(status),
                Ok((node, name)) => self.store.add_pending_node(node, name, now),
            },
            REFRESH_NODE => match decode_node(data) {
                Err(status) => Err(status),
                Ok(node) => self.store.refresh_node(node, now),
            },
            REMOVE_NODE => match decode_node(data) {
                Err(status) => Err(status),
                Ok(node) => self.store.remove_node(node),
            },
            ADD_GROUP_ID_TO_ENDPOINT_FOR_NODE => match decode_member(data) {
                Err(status) => Err(status),
                Ok((node, endpoint, group)) => self.store.add_group_to_endpoint(node, endpoint, group, now),
            },
            REMOVE_GROUP_ID_FROM_ENDPOINT_FOR_NODE => match decode_member(data) {
                Err(status) => Err(status),
                Ok((node, endpoint, group)) => self.store.remove_group_from_endpoint(node, endpoint, group, now),
            },
            _ => Err(Status::UnsupportedCommand),
        }
    }
}

impl<const N: usize, const G: usize, const K: usize, const A: usize, const M: usize> Cluster for JointFabricDatastore<N, G, K, A, M> {
    const ID: ClusterId = ID;
}

impl<const N: usize, const G: usize, const K: usize, const A: usize, const M: usize> ClusterHandler for JointFabricDatastore<
    N,
    G,
    K,
    A,
    M,
> {
    open spec fn answers(&self, resolved: Resolved, ctx: InteractionContext, tag: Tag, a: ReadAnswer) -> bool {
        a == attribute_answer(self.store, resolved.attribute, tag)
    }

    open spec fn writes(
        before: &Self,
        after: &Self,
        resolved: Resolved,
        data: Seq<u8>,
        op: WriteOp,
        ctx: InteractionContext,
        r: Result<(), Status>,
    ) -> bool {
        *after == *before && r == Err::<(), Status>(Status::UnsupportedWrite)
    }

    open spec fn invokes(
        before: &Self,
        after: &Self,
        resolved: ResolvedCommand,
        fields: Option<Seq<u8>>,
        ctx: InteractionContext,
        tag: Tag,
        a: InvokeAnswer,
    ) -> bool {
        (after.store@, a) == commanded(
            before.store@,
            Datastore::<N, G, K, A, M>::caps(),
            resolved.command,
            fields,
            ctx,
        )
    }

    open spec fn outlives(before: &Self, after: &Self, event: Lifecycle) -> bool {
        *after == *before
    }

    open spec fn unfit(&self, resolved: ResolvedCommand) -> Status {
        Status::Failure
    }

    fn answer(&self, resolved: &Resolved, ctx: &InteractionContext, tag: Tag) -> (a: Result<Vec<u8>, Status>) {
        let mut out: Vec<u8> = Vec::new();
        match resolved.attribute {
            ANCHOR_NODE_ID => {
                let v: Option<u64> = match self.store.anchor {
                    Some((node, _)) => Some(node.0),
                    None => None,
                };
                tlv::put_nullable(&mut out, tag, v);
            },
            ANCHOR_VENDOR_ID => {
                let v: Option<u64> = match self.store.anchor {
                    Some((_, vendor)) => Some(vendor.0 as u64),
                    None => None,
                };
                tlv::put_nullable(&mut out, tag, v);
            },
            FRIENDLY_NAME => tlv::put_text(&mut out, tag, self.store.friendly_name.as_str()),
            GROUP_KEY_SET_LIST => encode_key_sets(&mut out, tag, self.store.key_sets.as_slice()),
            NODE_LIST => tlv::put_members(&mut out, tag, self.store.nodes.as_slice()),
            GROUP_LIST => tlv::put_members(&mut out, tag, self.store.groups.as_slice()),
            ADMIN_LIST => tlv::put_members(&mut out, tag, self.store.admins.as_slice()),
            NODE_KEY_SET_LIST => tlv::put_members(&mut out, tag, self.store.node_key_sets.as_slice()),
            ENDPOINT_GROUP_ID_LIST => tlv::put_members(&mut out, tag, self.store.endpoint_groups.as_slice()),
            _ => return Err(Status::UnsupportedAttribute),
        }
        proof {
            let expected = attribute_answer(self.store, resolved.attribute, tag);
            assert(out@ =~= expected->Ok_0);
        }
        Ok(out)
    }

    fn write(&mut self, resolved: &Resolved, data: &[u8], op: WriteOp, ctx: &InteractionContext) -> (r: Result<(), Status>) {
        Err(Status::UnsupportedWrite)
    }

    fn perform(
        &mut self,
        resolved: &ResolvedCommand,
        fields: Option<&[u8]>,
        ctx: &InteractionContext,
        tag: Tag,
    ) -> (a: Result<Reply, StatusIb>) {
        if ctx.fabric().is_none() {
            return im::refuse(Status::UnsupportedAccess);
        }
        let data: &[u8] = match fields {
            None => return im::refuse(Status::InvalidCommand),
            Some(data) => data,
        };
        match self.change(resolved.command, data, whole_seconds(ctx.now)) {
            Ok(_) => im::no_response(),
            Err(status) => im::refuse(status),
        }
    }

    fn on_lifecycle(&mut self, event: Lifecycle) {
    }

    fn unfit_status(&self, resolved: &ResolvedCommand) -> (s: Status) {
        Status::Failure
    }
}

/// A node's identifier.
pub open spec fn node_key() -> spec_fn(NodeModel) -> NodeId {
    |n: NodeModel| n.node
}

/// A group's identifier.
pub open spec fn group_key() -> spec_fn(GroupModel) -> GroupId {
    |g: GroupModel| g.group
}

/// A key set's identifier.
pub open spec fn key_set_key() -> spec_fn(u16) -> u16 {
    |k: u16| k
}

/// An administrator's node.
pub open spec fn admin_key() -> spec_fn(AdminModel) -> NodeId {
    |a: AdminModel| a.node
}

/// A node and a key set that it holds.
pub open spec fn holding_key() -> spec_fn(NodeKeySet) -> (NodeId, u16) {
    |e: NodeKeySet| (e.node, e.key_set)
}

/// An endpoint and a group that it is in.
pub open spec fn member_key() -> spec_fn(EndpointGroup) -> (NodeId, EndpointId, GroupId) {
    |e: EndpointGroup| (e.node, e.endpoint, e.group)
}

/// Whether what a node holds refers to something: to a node, and unless it is on its way out to a
/// key set.
pub open spec fn holding_refers(m: StoreModel, e: NodeKeySet) -> bool {
    &&& bounded::first(m.nodes, of_node(e.node)) is Some
    &&& e.status.live() ==> bounded::first(m.key_sets, of_key_set(e.key_set)) is Some
}

/// Whether a membership refers to something: to a node, and unless it is on its way out to a group.
pub open spec fn member_refers(m: StoreModel, e: EndpointGroup) -> bool {
    &&& bounded::first(m.nodes, of_node(e.node)) is Some
    &&& e.status.live() ==> bounded::first(m.groups, of_group(e.group)) is Some
}

/// Whether the tables agree with one another: nothing is there twice, no group has a reserved tag,
/// and nothing refers to what is not there.
pub open spec fn consistent(m: StoreModel) -> bool {
    &&& bounded::distinct(m.nodes, node_key())
    &&& bounded::distinct(m.groups, group_key())
    &&& bounded::distinct(m.key_sets, key_set_key())
    &&& bounded::distinct(m.admins, admin_key())
    &&& bounded::distinct(m.node_key_sets, holding_key())
    &&& bounded::distinct(m.endpoint_groups, member_key())
    &&& forall|i: int| 0 <= i < m.groups.len() ==> taggable((#[trigger] m.groups[i]).cat)
    &&& forall|i: int| 0 <= i < m.node_key_sets.len() ==> holding_refers(m, #[trigger] m.node_key_sets[i])
    &&& forall|i: int| 0 <= i < m.endpoint_groups.len() ==> member_refers(m, #[trigger] m.endpoint_groups[i])
}

/// An empty datastore is consistent.
pub proof fn law_an_empty_store_is_consistent()
    ensures
        consistent(empty_store()),
{
}

/// Adding a key set keeps the tables consistent.
pub proof fn law_add_key_set_keeps_consistent(m: StoreModel, key_set: u16, cap: nat)
    requires
        consistent(m),
    ensures
        consistent(key_set_added(m, key_set, cap).0),
{
    bounded::lemma_first(m.key_sets, of_key_set(key_set));
    let after = key_set_added(m, key_set, cap).0;
    if after.key_sets.len() > m.key_sets.len() {
        bounded::lemma_distinct_push(m.key_sets, key_set_key(), key_set);
        assert forall|i: int| 0 <= i < after.node_key_sets.len() implies holding_refers(after, #[trigger] after.node_key_sets[i]) by {
            assert(holding_refers(m, m.node_key_sets[i]));
            if m.node_key_sets[i].status.live() {
                bounded::lemma_first_push(m.key_sets, of_key_set(m.node_key_sets[i].key_set), key_set);
            }
        }
        assert forall|i: int| 0 <= i < after.endpoint_groups.len() implies member_refers(after, #[trigger] after.endpoint_groups[i]) by {
            assert(member_refers(m, m.endpoint_groups[i]));
        }
    }
}

/// Removing a key set keeps the tables consistent: none that a node still holds is removed.
pub proof fn law_remove_key_set_keeps_consistent(m: StoreModel, key_set: u16)
    requires
        consistent(m),
    ensures
        consistent(key_set_removed(m, key_set).0),
{
    let (after, refused) = key_set_removed(m, key_set);
    if refused is None {
        bounded::lemma_distinct_filter(m.key_sets, key_set_key(), not_key_set(key_set));
        bounded::lemma_first(m.node_key_sets, keeps(key_set));
        assert forall|i: int| 0 <= i < after.node_key_sets.len() implies holding_refers(after, #[trigger] after.node_key_sets[i]) by {
            let e = m.node_key_sets[i];
            assert(holding_refers(m, e));
            assert(!keeps(key_set)(e));
            if e.status.live() {
                bounded::lemma_first_filter(m.key_sets, of_key_set(e.key_set), not_key_set(key_set));
            }
        }
        assert forall|i: int| 0 <= i < after.endpoint_groups.len() implies member_refers(after, #[trigger] after.endpoint_groups[i]) by {
            assert(member_refers(m, m.endpoint_groups[i]));
        }
    }
}

/// Adding a group keeps the tables consistent.
pub proof fn law_add_group_keeps_consistent(m: StoreModel, g: GroupModel, cap: nat)
    requires
        consistent(m),
    ensures
        consistent(group_added(m, g, cap).0),
{
    bounded::lemma_first(m.groups, of_group(g.group));
    let (after, refused) = group_added(m, g, cap);
    if refused is None {
        bounded::lemma_distinct_push(m.groups, group_key(), g);
        assert forall|i: int| 0 <= i < after.groups.len() implies taggable((#[trigger] after.groups[i]).cat) by {
            if i < m.groups.len() {
                assert(after.groups[i] == m.groups[i]);
            }
        }
        assert forall|i: int| 0 <= i < after.node_key_sets.len() implies holding_refers(after, #[trigger] after.node_key_sets[i]) by {
            assert(holding_refers(m, m.node_key_sets[i]));
        }
        assert forall|i: int| 0 <= i < after.endpoint_groups.len() implies member_refers(after, #[trigger] after.endpoint_groups[i]) by {
            assert(member_refers(m, m.endpoint_groups[i]));
            if m.endpoint_groups[i].status.live() {
                bounded::lemma_first_push(m.groups, of_group(m.endpoint_groups[i].group), g);
            }
        }
    }
}

/// Removing a group keeps the tables consistent: none that an endpoint is still in is removed.
pub proof fn law_remove_group_keeps_consistent(m: StoreModel, group: GroupId)
    requires
        consistent(m),
    ensures
        consistent(group_removed(m, group).0),
{
    let (after, refused) = group_removed(m, group);
    if refused is None {
        bounded::lemma_distinct_filter(m.groups, group_key(), not_group(group));
        bounded::lemma_filter(m.groups, not_group(group));
        bounded::lemma_first(m.endpoint_groups, lives_in(group));
        assert forall|i: int| 0 <= i < after.groups.len() implies taggable((#[trigger] after.groups[i]).cat) by {
            assert(after.groups.contains(after.groups[i]));
            assert(m.groups.contains(after.groups[i]));
            let k = choose|k: int| 0 <= k < m.groups.len() && m.groups[k] == after.groups[i];
            assert(taggable(m.groups[k].cat));
        }
        assert forall|i: int| 0 <= i < after.node_key_sets.len() implies holding_refers(after, #[trigger] after.node_key_sets[i]) by {
            assert(holding_refers(m, m.node_key_sets[i]));
        }
        assert forall|i: int| 0 <= i < after.endpoint_groups.len() implies member_refers(after, #[trigger] after.endpoint_groups[i]) by {
            let e = m.endpoint_groups[i];
            assert(member_refers(m, e));
            assert(!lives_in(group)(e));
            if e.status.live() {
                bounded::lemma_first_filter(m.groups, of_group(e.group), not_group(group));
            }
        }
    }
}

/// Recording a node keeps the tables consistent.
pub proof fn law_add_node_keeps_consistent(m: StoreModel, node: NodeId, name: Seq<char>, now: u32, cap: nat)
    requires
        consistent(m),
    ensures
        consistent(node_added(m, node, name, now, cap).0),
{
    bounded::lemma_first(m.nodes, of_node(node));
    let (after, refused) = node_added(m, node, name, now, cap);
    if refused is None {
        let n = NodeModel { node, friendly_name: name, commissioning: waiting(now) };
        bounded::lemma_distinct_push(m.nodes, node_key(), n);
        assert forall|i: int| 0 <= i < after.node_key_sets.len() implies holding_refers(after, #[trigger] after.node_key_sets[i]) by {
            assert(holding_refers(m, m.node_key_sets[i]));
            bounded::lemma_first_push(m.nodes, of_node(m.node_key_sets[i].node), n);
        }
        assert forall|i: int| 0 <= i < after.endpoint_groups.len() implies member_refers(after, #[trigger] after.endpoint_groups[i]) by {
            assert(member_refers(m, m.endpoint_groups[i]));
            bounded::lemma_first_push(m.nodes, of_node(m.endpoint_groups[i].node), n);
        }
    }
}

/// However far a node has come, the tables stay consistent.
pub proof fn law_advancing_keeps_consistent(m: StoreModel, i: int, status: StatusEntry)
    requires
        consistent(m),
        0 <= i < m.nodes.len(),
    ensures
        consistent(advanced(m, i, status)),
{
    let after = advanced(m, i, status);
    assert forall|a: int, b: int| 0 <= a < b < after.nodes.len() implies node_key()(#[trigger] after.nodes[a]) != node_key()(
        #[trigger] after.nodes[b],
    ) by {
        assert(node_key()(m.nodes[a]) != node_key()(m.nodes[b]));
    }
    assert forall|node: NodeId| bounded::first(m.nodes, of_node(node)) is Some implies #[trigger] bounded::first(
        after.nodes,
        of_node(node),
    ) is Some by {
        bounded::lemma_first(m.nodes, of_node(node));
        bounded::lemma_first(after.nodes, of_node(node));
        let k = bounded::first(m.nodes, of_node(node))->0;
        assert(after.nodes[k].node == m.nodes[k].node);
    }
    assert forall|k: int| 0 <= k < after.node_key_sets.len() implies holding_refers(after, #[trigger] after.node_key_sets[k]) by {
        assert(holding_refers(m, m.node_key_sets[k]));
    }
    assert forall|k: int| 0 <= k < after.endpoint_groups.len() implies member_refers(after, #[trigger] after.endpoint_groups[k]) by {
        assert(member_refers(m, m.endpoint_groups[k]));
    }
}

/// Removing a node keeps the tables consistent: what hangs off it goes with it.
pub proof fn law_remove_node_keeps_consistent(m: StoreModel, node: NodeId)
    requires
        consistent(m),
    ensures
        consistent(node_removed(m, node).0),
{
    let (after, refused) = node_removed(m, node);
    if refused is None {
        bounded::lemma_distinct_filter(m.nodes, node_key(), not_node(node));
        bounded::lemma_distinct_filter(m.node_key_sets, holding_key(), held_elsewhere(node));
        bounded::lemma_distinct_filter(m.endpoint_groups, member_key(), member_elsewhere(node));
        bounded::lemma_filter(m.node_key_sets, held_elsewhere(node));
        bounded::lemma_filter(m.endpoint_groups, member_elsewhere(node));
        assert forall|i: int| 0 <= i < after.node_key_sets.len() implies holding_refers(after, #[trigger] after.node_key_sets[i]) by {
            let e = after.node_key_sets[i];
            assert(held_elsewhere(node)(e));
            assert(after.node_key_sets.contains(e));
            assert(m.node_key_sets.contains(e));
            let k = choose|k: int| 0 <= k < m.node_key_sets.len() && m.node_key_sets[k] == e;
            assert(holding_refers(m, m.node_key_sets[k]));
            bounded::lemma_first_filter(m.nodes, of_node(e.node), not_node(node));
        }
        assert forall|i: int| 0 <= i < after.endpoint_groups.len() implies member_refers(after, #[trigger] after.endpoint_groups[i]) by {
            let e = after.endpoint_groups[i];
            assert(member_elsewhere(node)(e));
            assert(after.endpoint_groups.contains(e));
            assert(m.endpoint_groups.contains(e));
            let k = choose|k: int| 0 <= k < m.endpoint_groups.len() && m.endpoint_groups[k] == e;
            assert(member_refers(m, m.endpoint_groups[k]));
            bounded::lemma_first_filter(m.nodes, of_node(e.node), not_node(node));
        }
    }
}

/// Adding or removing an administrator keeps the tables consistent.
pub proof fn law_admins_keep_consistent(m: StoreModel, a: AdminModel, node: NodeId, cap: nat)
    requires
        consistent(m),
    ensures
        consistent(admin_added(m, a, cap).0),
        consistent(admin_removed(m, node).0),
{
    bounded::lemma_first(m.admins, of_admin(a.node));
    let added = admin_added(m, a, cap).0;
    let removed = admin_removed(m, node).0;
    if added.admins.len() > m.admins.len() {
        bounded::lemma_distinct_push(m.admins, admin_key(), a);
    }
    bounded::lemma_distinct_filter(m.admins, admin_key(), not_admin(node));
    assert forall|i: int| 0 <= i < m.node_key_sets.len() implies holding_refers(added, #[trigger] m.node_key_sets[i])
        && holding_refers(removed, m.node_key_sets[i]) by {
        assert(holding_refers(m, m.node_key_sets[i]));
    }
    assert forall|i: int| 0 <= i < m.endpoint_groups.len() implies member_refers(added, #[trigger] m.endpoint_groups[i])
        && member_refers(removed, m.endpoint_groups[i]) by {
        assert(member_refers(m, m.endpoint_groups[i]));
    }
}

/// Giving a node a key set keeps the tables consistent.
pub proof fn law_add_node_key_set_keeps_consistent(m: StoreModel, node: NodeId, key_set: u16, now: u32, cap: nat)
    requires
        consistent(m),
    ensures
        consistent(node_key_set_added(m, node, key_set, now, cap).0),
{
    bounded::lemma_first(m.node_key_sets, holds(node, key_set));
    let (after, refused) = node_key_set_added(m, node, key_set, now, cap);
    if refused is None {
        let e = NodeKeySet { node, key_set, status: waiting(now) };
        assert forall|i: int| 0 <= i < m.node_key_sets.len() implies holding_key()(#[trigger] m.node_key_sets[i]) != holding_key()(
            e,
        ) by {
            assert(!holds(node, key_set)(m.node_key_sets[i]));
        }
        bounded::lemma_distinct_push(m.node_key_sets, holding_key(), e);
        assert forall|i: int| 0 <= i < after.node_key_sets.len() implies holding_refers(after, #[trigger] after.node_key_sets[i]) by {
            if i < m.node_key_sets.len() {
                assert(holding_refers(m, m.node_key_sets[i]));
            }
        }
        assert forall|i: int| 0 <= i < after.endpoint_groups.len() implies member_refers(after, #[trigger] after.endpoint_groups[i]) by {
            assert(member_refers(m, m.endpoint_groups[i]));
        }
    }
}

/// Adding, leaving and deleting a membership keeps the tables consistent.
pub proof fn law_memberships_keep_consistent(
    m: StoreModel,
    node: NodeId,
    endpoint: EndpointId,
    group: GroupId,
    now: u32,
    cap: nat,
)
    requires
        consistent(m),
    ensures
        consistent(member_added(m, node, endpoint, group, now, cap).0),
        consistent(member_leaving(m, node, endpoint, group, now).0),
        consistent(member_left(m, node, endpoint, group)),
{
    let p = membership(node, endpoint, group);
    bounded::lemma_first(m.endpoint_groups, p);
    let (added, refused) = member_added(m, node, endpoint, group, now, cap);
    if refused is None {
        let e = EndpointGroup { node, endpoint, group, status: waiting(now) };
        assert forall|i: int| 0 <= i < m.endpoint_groups.len() implies member_key()(#[trigger] m.endpoint_groups[i])
            != member_key()(e) by {
            assert(!p(m.endpoint_groups[i]));
        }
        bounded::lemma_distinct_push(m.endpoint_groups, member_key(), e);
        assert forall|i: int| 0 <= i < added.endpoint_groups.len() implies member_refers(added, #[trigger] added.endpoint_groups[i]) by {
            if i < m.endpoint_groups.len() {
                assert(member_refers(m, m.endpoint_groups[i]));
            }
        }
        assert forall|i: int| 0 <= i < added.node_key_sets.len() implies holding_refers(added, #[trigger] added.node_key_sets[i]) by {
            assert(holding_refers(m, m.node_key_sets[i]));
        }
    }
    let leaving = member_leaving(m, node, endpoint, group, now).0;
    assert forall|a: int, b: int| 0 <= a < b < leaving.endpoint_groups.len() implies member_key()(
        #[trigger] leaving.endpoint_groups[a],
    ) != member_key()(#[trigger] leaving.endpoint_groups[b]) by {
        assert(member_key()(m.endpoint_groups[a]) != member_key()(m.endpoint_groups[b]));
    }
    assert forall|i: int| 0 <= i < leaving.endpoint_groups.len() implies member_refers(leaving, #[trigger] leaving.endpoint_groups[i]) by {
        assert(member_refers(m, m.endpoint_groups[i]));
    }
    assert forall|i: int| 0 <= i < leaving.node_key_sets.len() implies holding_refers(leaving, #[trigger] leaving.node_key_sets[i]) by {
        assert(holding_refers(m, m.node_key_sets[i]));
    }
    let left = member_left(m, node, endpoint, group);
    let q = not_deleted(node, endpoint, group);
    bounded::lemma_distinct_filter(m.endpoint_groups, member_key(), q);
    bounded::lemma_filter(m.endpoint_groups, q);
    assert forall|i: int| 0 <= i < left.endpoint_groups.len() implies member_refers(left, #[trigger] left.endpoint_groups[i]) by {
        let e = left.endpoint_groups[i];
        assert(left.endpoint_groups.contains(e));
        assert(m.endpoint_groups.contains(e));
        let k = choose|k: int| 0 <= k < m.endpoint_groups.len() && m.endpoint_groups[k] == e;
        assert(member_refers(m, m.endpoint_groups[k]));
    }
    assert forall|i: int| 0 <= i < left.node_key_sets.len() implies holding_refers(left, #[trigger] left.node_key_sets[i]) by {
        assert(holding_refers(m, m.node_key_sets[i]));
    }
}

/// Every command keeps the tables consistent, whatever its fields are.
pub proof fn law_commands_keep_consistent(m: StoreModel, caps: Caps, command: CommandId, b: Seq<u8>, now: u32)
    requires
        consistent(m),
    ensures
        consistent(changed(m, caps, command, b, now).0),
{
    if command == ADD_KEY_SET && key_set_decoded(b) is Ok {
        law_add_key_set_keeps_consistent(m, key_set_decoded(b)->Ok_0, caps.key_sets);
    } else if command == REMOVE_KEY_SET && id_decoded(b) is Ok {
        law_remove_key_set_keeps_consistent(m, id_decoded(b)->Ok_0);
    } else if command == ADD_GROUP && group_decoded(b) is Ok {
        law_add_group_keeps_consistent(m, group_decoded(b)->Ok_0, caps.groups);
    } else if command == REMOVE_GROUP && id_decoded(b) is Ok {
        law_remove_group_keeps_consistent(m, GroupId(id_decoded(b)->Ok_0));
    } else if command == ADD_ADMIN && admin_decoded(b) is Ok {
        law_admins_keep_consistent(m, admin_decoded(b)->Ok_0, NodeId(0), caps.admins);
    } else if command == REMOVE_ADMIN && node_decoded(b) is Ok {
        let a = AdminModel { node: NodeId(0), friendly_name: Seq::empty(), vendor: VendorId(0), icac_len: 0 };
        law_admins_keep_consistent(m, a, node_decoded(b)->Ok_0, caps.admins);
    } else if command == ADD_PENDING_NODE && pending_decoded(b) is Ok {
        let (node, name) = pending_decoded(b)->Ok_0;
        law_add_node_keeps_consistent(m, node, name, now, caps.nodes);
    } else if command == REFRESH_NODE && node_decoded(b) is Ok {
        let node = node_decoded(b)->Ok_0;
        bounded::lemma_first(m.nodes, of_node(node));
        if let Some(i) = bounded::first(m.nodes, of_node(node)) {
            law_advancing_keeps_consistent(m, i, waiting(now));
        }
    } else if command == REMOVE_NODE && node_decoded(b) is Ok {
        law_remove_node_keeps_consistent(m, node_decoded(b)->Ok_0);
    } else if (command == ADD_GROUP_ID_TO_ENDPOINT_FOR_NODE || command == REMOVE_GROUP_ID_FROM_ENDPOINT_FOR_NODE)
        && member_decoded(b) is Ok {
        let (node, endpoint, group) = member_decoded(b)->Ok_0;
        law_memberships_keep_consistent(m, node, endpoint, group, now, caps.members);
    }
}

/// A command that is refused changes nothing.
pub proof fn law_a_refused_command_changes_nothing(m: StoreModel, caps: Caps, command: CommandId, b: Seq<u8>, now: u32)
    ensures
        changed(m, caps, command, b, now).1 is Some ==> changed(m, caps, command, b, now).0 == m,
{
}

/// A node is recorded before it is committed: it waits after it was added and after every refresh,
/// and only the end of a refresh commits it.
pub proof fn law_a_node_waits_until_its_refresh_ends(m: StoreModel, node: NodeId, name: Seq<char>, now: u32, cap: nat)
    ensures
        ({
            let (added, refused) = node_added(m, node, name, now, cap);
            refused is None ==> added.nodes.last() == (NodeModel { node, friendly_name: name, commissioning: waiting(now) })
        }),
        ({
            let (refreshing, refused) = node_refreshing(m, node, now);
            refused is None ==> refreshing.nodes[bounded::first(m.nodes, of_node(node))->0].commissioning.state is Pending
        }),
{
    bounded::lemma_first(m.nodes, of_node(node));
}

proof fn lemma_noted(s: Seq<Option<NodeId>>, n: int, cap: nat)
    requires
        0 <= n <= s.len(),
    ensures
        noted(s, n, cap).len() <= cap,
        bounded::distinct(noted(s, n, cap), |x: NodeId| x),
        forall|x: NodeId| #[trigger] noted(s, n, cap).contains(x) ==> exists|k: int| 0 <= k < n && s[k] == Some(x),
        noted(s, n, cap).len() < cap ==> forall|k: int, x: NodeId|
            0 <= k < n && #[trigger] s[k] == Some(x) ==> #[trigger] noted(s, n, cap).contains(x),
    decreases n,
{
    if n > 0 {
        lemma_noted(s, n - 1, cap);
        let before = noted(s, n - 1, cap);
        let after = noted(s, n, cap);
        if let Some(node) = s[n - 1] {
            if !before.contains(node) && before.len() < cap {
                assert(after == before.push(node));
                assert forall|x: NodeId| before.contains(x) implies #[trigger] after.contains(x) by {
                    let i = choose|i: int| 0 <= i < before.len() && before[i] == x;
                    assert(after[i] == x);
                }
                assert(after[before.len() as int] == node);
                assert(after.contains(node));
                assert forall|x: NodeId| #[trigger] after.contains(x) implies exists|k: int| 0 <= k < n && s[k] == Some(x) by {
                    let i = choose|i: int| 0 <= i < after.len() && after[i] == x;
                    if i < before.len() {
                        assert(before[i] == x);
                        assert(before.contains(x));
                        let k = choose|k: int| 0 <= k < n - 1 && s[k] == Some(x);
                        assert(s[k] == Some(x));
                    } else {
                        assert(s[n - 1] == Some(x));
                    }
                }
                let key = |x: NodeId| x;
                assert forall|i: int, j: int| 0 <= i < j < after.len() implies key(#[trigger] after[i]) != key(
                    #[trigger] after[j],
                ) by {
                    if j == before.len() {
                        assert(before[i] == after[i]);
                        assert(before.contains(before[i]));
                    } else {
                        assert(key(before[i]) != key(before[j]));
                    }
                }
            }
        }
        assert forall|x: NodeId| #[trigger] after.contains(x) implies exists|k: int| 0 <= k < n && s[k] == Some(x) by {
            if before.contains(x) {
                let k = choose|k: int| 0 <= k < n - 1 && s[k] == Some(x);
                assert(s[k] == Some(x));
            }
        }
    }
}

/// A review names no node twice and none that waits for nothing; and unless it is full, every node
/// that waits for something.
pub proof fn law_a_review_is_complete(m: StoreModel, cap: nat)
    ensures
        ({
            let d = dues(m);
            let r = noted(d, d.len() as int, cap);
            &&& r.len() <= cap
            &&& bounded::distinct(r, |x: NodeId| x)
            &&& forall|x: NodeId| #[trigger] r.contains(x) ==> exists|k: int| 0 <= k < d.len() && d[k] == Some(x)
            &&& r.len() < cap ==> forall|k: int, x: NodeId| 0 <= k < d.len() && #[trigger] d[k] == Some(x) ==> #[trigger] r.contains(x)
        }),
{
    lemma_noted(dues(m), dues(m).len() as int, cap);
}

/// Whether a node is in the datastore.
pub open spec fn has_node(m: StoreModel, node: NodeId) -> bool {
    exists|i: int| 0 <= i < m.nodes.len() && (#[trigger] m.nodes[i]).node == node
}

proof fn lemma_has_node(m: StoreModel, node: NodeId)
    ensures
        (bounded::first(m.nodes, of_node(node)) is Some) == has_node(m, node),
{
    let p = of_node(node);
    bounded::lemma_first(m.nodes, p);
    match bounded::first(m.nodes, p) {
        Some(i) => {
            assert(p(m.nodes[i]));
        },
        None => {
            assert forall|i: int| 0 <= i < m.nodes.len() implies !((#[trigger] m.nodes[i]).node == node) by {
                assert(!p(m.nodes[i]));
            }
        },
    }
}

/// Whether a group is in the datastore.
pub open spec fn has_group(m: StoreModel, group: GroupId) -> bool {
    exists|i: int| 0 <= i < m.groups.len() && (#[trigger] m.groups[i]).group == group
}

proof fn lemma_has_group(m: StoreModel, group: GroupId)
    ensures
        (bounded::first(m.groups, of_group(group)) is Some) == has_group(m, group),
{
    let p = of_group(group);
    bounded::lemma_first(m.groups, p);
    match bounded::first(m.groups, p) {
        Some(i) => {
            assert(p(m.groups[i]));
        },
        None => {
            assert forall|i: int| 0 <= i < m.groups.len() implies !((#[trigger] m.groups[i]).group == group) by {
                assert(!p(m.groups[i]));
            }
        },
    }
}

/// Whether a key set is in the datastore.
pub open spec fn has_key_set(m: StoreModel, key_set: u16) -> bool {
    exists|i: int| 0 <= i < m.key_sets.len() && (#[trigger] m.key_sets[i]) == key_set
}

proof fn lemma_has_key_set(m: StoreModel, key_set: u16)
    ensures
        (bounded::first(m.key_sets, of_key_set(key_set)) is Some) == has_key_set(m, key_set),
{
    let p = of_key_set(key_set);
    bounded::lemma_first(m.key_sets, p);
    match bounded::first(m.key_sets, p) {
        Some(i) => {
            assert(p(m.key_sets[i]));
        },
        None => {
            assert forall|i: int| 0 <= i < m.key_sets.len() implies !((#[trigger] m.key_sets[i]) == key_set) by {
                assert(!p(m.key_sets[i]));
            }
        },
    }
}

/// Whether an administrator is in the datastore.
pub open spec fn has_admin(m: StoreModel, node: NodeId) -> bool {
    exists|i: int| 0 <= i < m.admins.len() && (#[trigger] m.admins[i]).node == node
}

proof fn lemma_has_admin(m: StoreModel, node: NodeId)
    ensures
        (bounded::first(m.admins, of_admin(node)) is Some) == has_admin(m, node),
{
    let p = of_admin(node);
    bounded::lemma_first(m.admins, p);
    match bounded::first(m.admins, p) {
        Some(i) => {
            assert(p(m.admins[i]));
        },
        None => {
            assert forall|i: int| 0 <= i < m.admins.len() implies !((#[trigger] m.admins[i]).node == node) by {
                assert(!p(m.admins[i]));
            }
        },
    }
}

/// Commands about key sets: `AddKeySet` adds that key set at the end where it is not there and there is room; `RemoveKeySet`
/// takes out that key set and no other where it is there, is not that of the fabric's identity, and no node keeps it.
pub proof fn law_key_sets_come_and_go(m: StoreModel, key_set: u16, cap: nat)
    ensures
        ({
            let (after, refused) = key_set_added(m, key_set, cap);
            &&& refused == (if has_key_set(m, key_set) {
                Some(Status::ConstraintError)
            } else if m.key_sets.len() >= cap {
                Some(Status::ResourceExhausted)
            } else {
                None
            })
            &&& after == (if refused is None { StoreModel { key_sets: m.key_sets.push(key_set), ..m } } else { m })
        }),
        ({
            let (after, refused) = key_set_removed(m, key_set);
            let kept = exists|i: int|
                0 <= i < m.node_key_sets.len() && (#[trigger] m.node_key_sets[i]).key_set == key_set && !(m.node_key_sets[i].status.state
                    is DeletePending);
            &&& refused == (if key_set == 0 {
                Some(Status::ConstraintError)
            } else if !has_key_set(m, key_set) {
                Some(Status::NotFound)
            } else if kept {
                Some(Status::ConstraintError)
            } else {
                None
            })
            &&& refused is Some ==> after == m
            &&& after == (StoreModel { key_sets: after.key_sets, ..m })
            &&& refused is None ==> after.key_sets == m.key_sets.filter(|k: u16| k != key_set)
        }),
{
    lemma_has_key_set(m, key_set);
    assert(not_key_set(key_set) =~= |k: u16| k != key_set);
    let p = keeps(key_set);
    bounded::lemma_first(m.node_key_sets, p);
    match bounded::first(m.node_key_sets, p) {
        Some(i) => {
            assert(p(m.node_key_sets[i]));
        },
        None => {
            assert forall|i: int| 0 <= i < m.node_key_sets.len() implies !((#[trigger] m.node_key_sets[i]).key_set == key_set && !(
            m.node_key_sets[i].status.state is DeletePending)) by {
                assert(!p(m.node_key_sets[i]));
            }
        },
    }
}

/// Commands about groups: `AddGroup` adds that group as it is given at the end, where its tag is none of the reserved ones and
/// lies in the range, its key set is there, it is not there itself and there is room; `RemoveGroup` takes out that group and no
/// other where it is there, its tag is not reserved and no endpoint stays in it.
pub proof fn law_groups_come_and_go(m: StoreModel, g: GroupModel, group: GroupId, cap: nat)
    requires
        bounded::distinct(m.groups, group_key()),
    ensures
        ({
            let (after, refused) = group_added(m, g, cap);
            let bad = g.cat is Some && (g.cat->Some_0 == 0 || g.cat->Some_0 == 0xFFFE || g.cat->Some_0 == 0xFFFF);
            &&& refused == (if bad || has_group(m, g.group) {
                Some(Status::ConstraintError)
            } else if g.key_set is Some && !has_key_set(m, g.key_set->Some_0) {
                Some(Status::NotFound)
            } else if m.groups.len() >= cap {
                Some(Status::ResourceExhausted)
            } else {
                None
            })
            &&& after == (if refused is None { StoreModel { groups: m.groups.push(g), ..m } } else { m })
        }),
        ({
            let (after, refused) = group_removed(m, group);
            let stays = exists|i: int|
                0 <= i < m.endpoint_groups.len() && (#[trigger] m.endpoint_groups[i]).group == group && !(m.endpoint_groups[i].status.state
                    is DeletePending);
            &&& !has_group(m, group) ==> refused == Some(Status::NotFound)
            &&& forall|i: int|
                0 <= i < m.groups.len() && (#[trigger] m.groups[i]).group == group ==> refused == (if m.groups[i].cat == Some(
                    0xFFFFu16,
                ) || m.groups[i].cat == Some(0xFFFEu16) || stays {
                    Some(Status::ConstraintError)
                } else {
                    None
                })
            &&& refused is Some ==> after == m
            &&& after == (StoreModel { groups: after.groups, ..m })
            &&& refused is None ==> after.groups == m.groups.filter(|x: GroupModel| x.group != group)
        }),
{
    lemma_has_group(m, g.group);
    lemma_has_group(m, group);
    if let Some(k) = g.key_set {
        lemma_has_key_set(m, k);
    }
    assert(not_group(group) =~= |x: GroupModel| x.group != group);
    bounded::lemma_first(m.groups, of_group(group));
    if let Some(at) = bounded::first(m.groups, of_group(group)) {
        assert(of_group(group)(m.groups[at]));
        assert forall|i: int| 0 <= i < m.groups.len() && (#[trigger] m.groups[i]).group == group implies i == at by {
            assert(group_key()(m.groups[i]) == group_key()(m.groups[at]));
        }
    }
    let p = lives_in(group);
    bounded::lemma_first(m.endpoint_groups, p);
    match bounded::first(m.endpoint_groups, p) {
        Some(i) => {
            assert(p(m.endpoint_groups[i]));
        },
        None => {
            assert forall|i: int| 0 <= i < m.endpoint_groups.len() implies !((#[trigger] m.endpoint_groups[i]).group == group && !(
            m.endpoint_groups[i].status.state is DeletePending)) by {
                assert(!p(m.endpoint_groups[i]));
            }
        },
    }
}

/// Commands about nodes: `AddPendingNode` adds that node under its name at the end, waiting, where it is not there, the name
/// has at most 32 octets and there is room; `RemoveNode` takes out that node and what it holds and is in, and nothing of any
/// other; `RefreshNode` has it wait again from now on, and the end of a refresh is noted with it alone.
pub proof fn law_nodes_come_and_go(m: StoreModel, node: NodeId, name: Seq<char>, outcome: Result<(), Status>, now: u32, cap: nat)
    ensures
        ({
            let (after, refused) = node_added(m, node, name, now, cap);
            &&& refused == (if has_node(m, node) || utf8::encode_utf8(name).len() > 32 {
                Some(Status::ConstraintError)
            } else if m.nodes.len() >= cap {
                Some(Status::ResourceExhausted)
            } else {
                None
            })
            &&& after == (if refused is None {
                StoreModel {
                    nodes: m.nodes.push(
                        NodeModel {
                            node,
                            friendly_name: name,
                            commissioning: StatusEntry { state: DatastoreStateEnum::Pending, updated_at: now, failure: None },
                        },
                    ),
                    ..m
                }
            } else {
                m
            })
        }),
        ({
            let (after, refused) = node_removed(m, node);
            &&& refused == (if has_node(m, node) { None } else { Some(Status::NotFound) })
            &&& refused is Some ==> after == m
            &&& refused is None ==> after == (StoreModel {
                nodes: m.nodes.filter(|x: NodeModel| x.node != node),
                node_key_sets: m.node_key_sets.filter(|x: NodeKeySet| x.node != node),
                endpoint_groups: m.endpoint_groups.filter(|x: EndpointGroup| x.node != node),
                ..m
            })
        }),
        ({
            let (after, refused) = node_refreshing(m, node, now);
            let ended = node_was_refreshed(m, node, outcome, now);
            let again = StatusEntry { state: DatastoreStateEnum::Pending, updated_at: now, failure: None };
            let how = match outcome {
                Ok(_) => StatusEntry { state: DatastoreStateEnum::Committed, updated_at: now, failure: None },
                Err(status) => StatusEntry { state: DatastoreStateEnum::CommitFailed, updated_at: now, failure: Some(status) },
            };
            &&& refused == (if has_node(m, node) { None } else { Some(Status::NotFound) })
            &&& !has_node(m, node) ==> after == m && ended == m
            &&& has_node(m, node) ==> exists|i: int|
                {
                    &&& 0 <= i < m.nodes.len() && (#[trigger] m.nodes[i]).node == node
                    &&& after == (StoreModel { nodes: m.nodes.update(i, NodeModel { commissioning: again, ..m.nodes[i] }), ..m })
                    &&& ended == (StoreModel { nodes: m.nodes.update(i, NodeModel { commissioning: how, ..m.nodes[i] }), ..m })
                }
        }),
{
    lemma_has_node(m, node);
    bounded::lemma_first(m.nodes, of_node(node));
    if let Some(i) = bounded::first(m.nodes, of_node(node)) {
        assert(of_node(node)(m.nodes[i]));
        assert(m.nodes[i].node == node);
    }
    assert(not_node(node) =~= |x: NodeModel| x.node != node);
    assert(held_elsewhere(node) =~= |x: NodeKeySet| x.node != node);
    assert(member_elsewhere(node) =~= |x: EndpointGroup| x.node != node);
}

/// Commands about administrators: `AddAdmin` adds that administrator at the end where its certificate has at most 400 octets,
/// it is not there and there is room; `RemoveAdmin` takes out that one and no other.
pub proof fn law_administrators_come_and_go(m: StoreModel, a: AdminModel, node: NodeId, cap: nat)
    ensures
        ({
            let (after, refused) = admin_added(m, a, cap);
            &&& refused == (if a.icac_len > 400 || has_admin(m, a.node) {
                Some(Status::ConstraintError)
            } else if m.admins.len() >= cap {
                Some(Status::ResourceExhausted)
            } else {
                None
            })
            &&& after == (if refused is None { StoreModel { admins: m.admins.push(a), ..m } } else { m })
        }),
        ({
            let (after, refused) = admin_removed(m, node);
            &&& refused == (if has_admin(m, node) { None } else { Some(Status::NotFound) })
            &&& after == (if refused is None {
                StoreModel { admins: m.admins.filter(|x: AdminModel| x.node != node), ..m }
            } else {
                m
            })
        }),
{
    lemma_has_admin(m, a.node);
    lemma_has_admin(m, node);
    assert(not_admin(node) =~= |x: AdminModel| x.node != node);
}

/// Commands about what nodes hold and are in: each is added at the end, waiting, where the node and the key set or the group
/// are there, it is not there already and there is room; an endpoint that is to leave a group is marked so, and only once that
/// reached the node is that one membership gone.
pub proof fn law_memberships_come_and_go(
    m: StoreModel,
    node: NodeId,
    key_set: u16,
    endpoint: EndpointId,
    group: GroupId,
    now: u32,
    cap: nat,
)
    ensures
        ({
            let (after, refused) = node_key_set_added(m, node, key_set, now, cap);
            let there = exists|i: int|
                0 <= i < m.node_key_sets.len() && (#[trigger] m.node_key_sets[i]).node == node && m.node_key_sets[i].key_set == key_set;
            &&& refused == (if !has_node(m, node) || !has_key_set(m, key_set) {
                Some(Status::NotFound)
            } else if there {
                Some(Status::ConstraintError)
            } else if m.node_key_sets.len() >= cap {
                Some(Status::ResourceExhausted)
            } else {
                None
            })
            &&& after == (if refused is None {
                StoreModel {
                    node_key_sets: m.node_key_sets.push(
                        NodeKeySet {
                            node,
                            key_set,
                            status: StatusEntry { state: DatastoreStateEnum::Pending, updated_at: now, failure: None },
                        },
                    ),
                    ..m
                }
            } else {
                m
            })
        }),
        ({
            let there = exists|i: int|
                0 <= i < m.endpoint_groups.len() && (#[trigger] m.endpoint_groups[i]).node == node && m.endpoint_groups[i].endpoint
                    == endpoint && m.endpoint_groups[i].group == group;
            let (after, refused) = member_added(m, node, endpoint, group, now, cap);
            let (leaving, denied) = member_leaving(m, node, endpoint, group, now);
            &&& refused == (if !has_node(m, node) || !has_group(m, group) {
                Some(Status::NotFound)
            } else if there {
                Some(Status::ConstraintError)
            } else if m.endpoint_groups.len() >= cap {
                Some(Status::ResourceExhausted)
            } else {
                None
            })
            &&& after == (if refused is None {
                StoreModel {
                    endpoint_groups: m.endpoint_groups.push(
                        EndpointGroup {
                            node,
                            endpoint,
                            group,
                            status: StatusEntry { state: DatastoreStateEnum::Pending, updated_at: now, failure: None },
                        },
                    ),
                    ..m
                }
            } else {
                m
            })
            &&& denied == (if there { None } else { Some(Status::NotFound) })
            &&& !there ==> leaving == m
            &&& there ==> exists|i: int|
                {
                    &&& 0 <= i < m.endpoint_groups.len() && (#[trigger] m.endpoint_groups[i]).node == node
                        && m.endpoint_groups[i].endpoint == endpoint && m.endpoint_groups[i].group == group
                    &&& leaving == (StoreModel {
                        endpoint_groups: m.endpoint_groups.update(
                            i,
                            EndpointGroup {
                                status: StatusEntry { state: DatastoreStateEnum::DeletePending, updated_at: now, failure: None },
                                ..m.endpoint_groups[i]
                            },
                        ),
                        ..m
                    })
                }
        }),
        member_left(m, node, endpoint, group) == (StoreModel {
            endpoint_groups: m.endpoint_groups.filter(
                |x: EndpointGroup|
                    !(x.node == node && x.endpoint == endpoint && x.group == group && x.status.state is DeletePending),
            ),
            ..m
        }),
{
    lemma_has_node(m, node);
    lemma_has_key_set(m, key_set);
    lemma_has_group(m, group);
    assert(not_deleted(node, endpoint, group) =~= |x: EndpointGroup|
        !(x.node == node && x.endpoint == endpoint && x.group == group && x.status.state is DeletePending));
    let p = holds(node, key_set);
    bounded::lemma_first(m.node_key_sets, p);
    match bounded::first(m.node_key_sets, p) {
        Some(i) => {
            assert(p(m.node_key_sets[i]));
        },
        None => {
            assert forall|i: int| 0 <= i < m.node_key_sets.len() implies !((#[trigger] m.node_key_sets[i]).node == node
                && m.node_key_sets[i].key_set == key_set) by {
                assert(!p(m.node_key_sets[i]));
            }
        },
    }
    let q = membership(node, endpoint, group);
    bounded::lemma_first(m.endpoint_groups, q);
    match bounded::first(m.endpoint_groups, q) {
        Some(i) => {
            assert(q(m.endpoint_groups[i]));
            assert(m.endpoint_groups[i].node == node);
        },
        None => {
            assert forall|i: int| 0 <= i < m.endpoint_groups.len() implies !((#[trigger] m.endpoint_groups[i]).node == node
                && m.endpoint_groups[i].endpoint == endpoint && m.endpoint_groups[i].group == group) by {
                assert(!q(m.endpoint_groups[i]));
            }
        },
    }
}

/// Whether a command with these fields comes to this.
pub open spec fn comes_to(m: StoreModel, after: StoreModel, a: InvokeAnswer, r: (StoreModel, Option<Status>)) -> bool {
    after == r.0 && a == (match r.1 {
        None => im::done(),
        Some(status) => im::refused(status),
    })
}

/// Each command does with the fields that it brings what it is for, at the second that it comes in, and needs an accessing
/// fabric.
pub proof fn law_commands_do_what_they_are_for<const N: usize, const G: usize, const K: usize, const A: usize, const M: usize>(
    before: JointFabricDatastore<N, G, K, A, M>,
    after: JointFabricDatastore<N, G, K, A, M>,
    resolved: ResolvedCommand,
    b: Seq<u8>,
    ctx: InteractionContext,
    tag: Tag,
    a: InvokeAnswer,
    now: u32,
)
    requires
        JointFabricDatastore::invokes(&before, &after, resolved, Some(b), ctx, tag, a),
        now * 1_000_000 <= ctx.now.micros < now * 1_000_000 + 1_000_000,
    ensures
        ctx.fabric_index is None || ctx.fabric_index->Some_0.0 == 0 ==> a == im::refused(Status::UnsupportedAccess) && after.store@
            == before.store@,
        ctx.fabric_index is Some && ctx.fabric_index->Some_0.0 != 0 ==> {
            let m = before.store@;
            let one = fields::decode(b, seq![Field(0, Kind::U16, Need::Required)]);
            let node = fields::decode(b, seq![Field(0, Kind::U64, Need::Required)]);
            let member = fields::decode(
                b,
                seq![
                    Field(0, Kind::U64, Need::Required),
                    Field(1, Kind::U16, Need::Required),
                    Field(2, Kind::U16, Need::Required),
                ],
            );
            &&& resolved.command == 0x02 ==> (one matches Ok(items) ==> (fields::num16(items, 0) matches Some(id) ==> comes_to(
                m,
                after.store@,
                a,
                key_set_removed(m, id),
            )))
            &&& resolved.command == 0x03 ==> (fields::decode(
                b,
                seq![
                    Field(0, Kind::U16, Need::Required),
                    Field(1, Kind::Text, Need::Required),
                    Field(2, Kind::U16, Need::Nullable),
                    Field(3, Kind::U16, Need::Nullable),
                    Field(4, Kind::U16, Need::Nullable),
                    Field(5, Kind::U8, Need::Required),
                ],
            ) matches Ok(items) ==> (fields::num16(items, 0) is Some && fields::text(b, items, 1) is Some && fields::num8(items, 5) is Some
                ==> {
                let p = fields::num8(items, 5)->Some_0;
                let name = fields::text(b, items, 1)->Some_0;
                if !(1 <= p <= 5) || utf8::encode_utf8(name).len() > 32 {
                    a == im::refused(Status::ConstraintError) && after.store@ == m
                } else {
                    comes_to(
                        m,
                        after.store@,
                        a,
                        group_added(
                            m,
                            GroupModel {
                                group: GroupId(fields::num16(items, 0)->Some_0),
                                friendly_name: name,
                                key_set: fields::num16(items, 2),
                                cat: fields::num16(items, 3),
                                cat_version: fields::num16(items, 4),
                                permission: if p == 1 {
                                    DatastoreAccessControlEntryPrivilegeEnum::View
                                } else if p == 2 {
                                    DatastoreAccessControlEntryPrivilegeEnum::ProxyView
                                } else if p == 3 {
                                    DatastoreAccessControlEntryPrivilegeEnum::Operate
                                } else if p == 4 {
                                    DatastoreAccessControlEntryPrivilegeEnum::Manage
                                } else {
                                    DatastoreAccessControlEntryPrivilegeEnum::Administer
                                },
                            },
                            G as nat,
                        ),
                    )
                }
            }))
            &&& resolved.command == 0x05 ==> (one matches Ok(items) ==> (fields::num16(items, 0) matches Some(id) ==> comes_to(
                m,
                after.store@,
                a,
                group_removed(m, GroupId(id)),
            )))
            &&& resolved.command == 0x06 ==> (fields::decode(
                b,
                seq![
                    Field(1, Kind::U64, Need::Required),
                    Field(2, Kind::Text, Need::Required),
                    Field(3, Kind::U16, Need::Required),
                    Field(4, Kind::Octets, Need::Required),
                ],
            ) matches Ok(items) ==> (fields::num(items, 1) is Some && fields::text(b, items, 2) is Some && fields::num16(items, 3) is Some
                && fields::octets(b, items, 4) is Some ==> {
                let name = fields::text(b, items, 2)->Some_0;
                if utf8::encode_utf8(name).len() > 32 {
                    a == im::refused(Status::ConstraintError) && after.store@ == m
                } else {
                    comes_to(
                        m,
                        after.store@,
                        a,
                        admin_added(
                            m,
                            AdminModel {
                                node: NodeId(fields::num(items, 1)->Some_0),
                                friendly_name: name,
                                vendor: VendorId(fields::num16(items, 3)->Some_0),
                                icac_len: fields::octets(b, items, 4)->Some_0.len() as usize,
                            },
                            A as nat,
                        ),
                    )
                }
            }))
            &&& resolved.command == 0x08 ==> (node matches Ok(items) ==> (fields::num(items, 0) matches Some(id) ==> comes_to(
                m,
                after.store@,
                a,
                admin_removed(m, NodeId(id)),
            )))
            &&& resolved.command == 0x09 ==> (fields::decode(
                b,
                seq![Field(0, Kind::U64, Need::Required), Field(1, Kind::Text, Need::Required)],
            ) matches Ok(items) ==> (fields::num(items, 0) is Some && fields::text(b, items, 1) is Some ==> comes_to(
                m,
                after.store@,
                a,
                node_added(m, NodeId(fields::num(items, 0)->Some_0), fields::text(b, items, 1)->Some_0, now, N as nat),
            )))
            &&& resolved.command == 0x0A ==> (node matches Ok(items) ==> (fields::num(items, 0) matches Some(id) ==> comes_to(
                m,
                after.store@,
                a,
                node_refreshing(m, NodeId(id), now),
            )))
            &&& resolved.command == 0x0C ==> (node matches Ok(items) ==> (fields::num(items, 0) matches Some(id) ==> comes_to(
                m,
                after.store@,
                a,
                node_removed(m, NodeId(id)),
            )))
            &&& resolved.command == 0x0E || resolved.command == 0x0F ==> (member matches Ok(items) ==> (fields::num(items, 0) is Some
                && fields::num16(items, 1) is Some && fields::num16(items, 2) is Some ==> {
                let id = NodeId(fields::num(items, 0)->Some_0);
                let endpoint = fields::num16(items, 1)->Some_0;
                let group = GroupId(fields::num16(items, 2)->Some_0);
                comes_to(
                    m,
                    after.store@,
                    a,
                    if resolved.command == 0x0E {
                        member_added(m, id, endpoint, group, now, M as nat)
                    } else {
                        member_leaving(m, id, endpoint, group, now)
                    },
                )
            }))
        },
{
    assert(id_schema() =~= seq![Field(0, Kind::U16, Need::Required)]);
    assert(node_schema() =~= seq![Field(0, Kind::U64, Need::Required)]);
    assert(pending_schema() =~= seq![Field(0, Kind::U64, Need::Required), Field(1, Kind::Text, Need::Required)]);
    assert(member_schema() =~= seq![
        Field(0, Kind::U64, Need::Required),
        Field(1, Kind::U16, Need::Required),
        Field(2, Kind::U16, Need::Required),
    ]);
    assert(group_schema() =~= seq![
        Field(0, Kind::U16, Need::Required),
        Field(1, Kind::Text, Need::Required),
        Field(2, Kind::U16, Need::Nullable),
        Field(3, Kind::U16, Need::Nullable),
        Field(4, Kind::U16, Need::Nullable),
        Field(5, Kind::U8, Need::Required),
    ]);
    assert(admin_schema() =~= seq![
        Field(1, Kind::U64, Need::Required),
        Field(2, Kind::Text, Need::Required),
        Field(3, Kind::U16, Need::Required),
        Field(4, Kind::Octets, Need::Required),
    ]);
    assert(seconds(ctx.now) == now);
}

/// How far a thing has come is shown with its state, its time and what went wrong.
pub open spec fn shown_status(tag: Tag, s: StatusEntry) -> Seq<u8> {
    tlv::structure_bytes(
        tag,
        tlv::unsigned_bytes(
            Tag::Context(0),
            match s.state {
                DatastoreStateEnum::Pending => 0,
                DatastoreStateEnum::Committed => 1,
                DatastoreStateEnum::DeletePending => 2,
                DatastoreStateEnum::CommitFailed => 3,
            },
        ) + tlv::unsigned_bytes(Tag::Context(1), s.updated_at as u64) + tlv::unsigned_bytes(
            Tag::Context(2),
            match s.failure {
                Some(f) => im::status_value(f) as u64,
                None => 0,
            },
        ),
    )
}

/// What every entry shows of itself: a node, a group, an administrator, a key set that a node holds, and a group that an
/// endpoint is in.
pub proof fn law_entries_show_themselves(n: NodeEntry, g: GroupEntry, d: AdminEntry, h: NodeKeySet, e: EndpointGroup, tag: Tag)
    ensures
        n.tlv(tag) == tlv::structure_bytes(
            tag,
            tlv::unsigned_bytes(Tag::Context(0), n.node.0) + tlv::text_bytes(Tag::Context(1), n.friendly_name@) + shown_status(
                Tag::Context(2),
                n.commissioning,
            ),
        ),
        ({
            let nullable = |t: u8, v: Option<u16>|
                match v {
                    Some(v) => tlv::unsigned_bytes(Tag::Context(t), v as u64),
                    None => tlv::null_bytes(Tag::Context(t)),
                };
            g.tlv(tag) == tlv::structure_bytes(
                tag,
                tlv::unsigned_bytes(Tag::Context(0), g.group.0 as u64) + tlv::text_bytes(Tag::Context(1), g.friendly_name@)
                    + nullable(2, g.key_set) + nullable(3, g.cat) + nullable(4, g.cat_version) + tlv::unsigned_bytes(
                    Tag::Context(5),
                    match g.permission {
                        DatastoreAccessControlEntryPrivilegeEnum::View => 1,
                        DatastoreAccessControlEntryPrivilegeEnum::ProxyView => 2,
                        DatastoreAccessControlEntryPrivilegeEnum::Operate => 3,
                        DatastoreAccessControlEntryPrivilegeEnum::Manage => 4,
                        DatastoreAccessControlEntryPrivilegeEnum::Administer => 5,
                    },
                ),
            )
        }),
        d.tlv(tag) == tlv::structure_bytes(
            tag,
            tlv::unsigned_bytes(Tag::Context(0), d.node.0) + tlv::text_bytes(Tag::Context(1), d.friendly_name@) + tlv::unsigned_bytes(
                Tag::Context(2),
                d.vendor.0 as u64,
            ),
        ),
        h.tlv(tag) == tlv::structure_bytes(
            tag,
            tlv::unsigned_bytes(Tag::Context(0), h.node.0) + tlv::unsigned_bytes(Tag::Context(1), h.key_set as u64) + shown_status(
                Tag::Context(2),
                h.status,
            ),
        ),
        e.tlv(tag) == tlv::structure_bytes(
            tag,
            tlv::unsigned_bytes(Tag::Context(0), e.node.0) + tlv::unsigned_bytes(Tag::Context(1), e.endpoint as u64)
                + tlv::unsigned_bytes(Tag::Context(2), e.group.0 as u64) + shown_status(Tag::Context(3), e.status),
        ),
{
    assert(status_bytes(Tag::Context(2), n.commissioning) =~= shown_status(Tag::Context(2), n.commissioning));
    assert(status_bytes(Tag::Context(2), h.status) =~= shown_status(Tag::Context(2), h.status));
    assert(status_bytes(Tag::Context(3), e.status) =~= shown_status(Tag::Context(3), e.status));
}

/// What a read shows is what the datastore holds: the anchor and its vendor, the name, and every entry of every list, in order.
pub proof fn law_the_datastore_is_read_as_it_is<const N: usize, const G: usize, const K: usize, const A: usize, const M: usize>(
    c: JointFabricDatastore<N, G, K, A, M>,
    resolved: Resolved,
    ctx: InteractionContext,
    tag: Tag,
    a: ReadAnswer,
)
    requires
        c.answers(resolved, ctx, tag, a),
    ensures
        ({
            let s = c.store;
            let id = resolved.attribute;
            let shown = |b: Seq<u8>| a == Ok::<Seq<u8>, Status>(b);
            &&& id == 0x0001 ==> if s.anchor is Some {
                a is Ok && tlv::shows_number(a->Ok_0, 0, tag, s.anchor->Some_0.0.0)
            } else {
                shown(tlv::null_bytes(tag))
            }
            &&& id == 0x0002 ==> if s.anchor is Some {
                a is Ok && tlv::shows_number(a->Ok_0, 0, tag, s.anchor->Some_0.1.0 as u64)
            } else {
                shown(tlv::null_bytes(tag))
            }
            &&& id == 0x0003 ==> shown(tlv::text_bytes(tag, s.friendly_name@))
            &&& id == 0x0004 ==> shown(tlv::array_bytes(tag, tlv::concat(s.key_sets@, key_set_bytes())))
            &&& id == 0x0005 ==> shown(tlv::members_bytes(tag, s.groups@))
            &&& id == 0x0006 ==> shown(tlv::members_bytes(tag, s.nodes@))
            &&& id == 0x0007 ==> shown(tlv::members_bytes(tag, s.admins@))
            &&& id == 0x0009 ==> shown(tlv::members_bytes(tag, s.endpoint_groups@))
            &&& id == 0x000B ==> shown(tlv::members_bytes(tag, s.node_key_sets@))
        }),
        forall|k: u16| #[trigger] key_set_bytes()(k) == tlv::structure_bytes(
            Tag::Anonymous,
            tlv::unsigned_bytes(Tag::Context(0), k as u64),
        ),
{
    assert forall|v: u64| tlv::shows_number(#[trigger] tlv::unsigned_bytes(tag, v), 0, tag, v) by {
        tlv::lemma_shows_number(tag, v);
    }
}

/// A node waits for something exactly where it, a key set that it holds or a group that one of its endpoints is in has not reached
/// it, whatever the reason.
pub proof fn law_what_a_node_waits_for(m: StoreModel, node: NodeId)
    ensures
        (exists|k: int| 0 <= k < dues(m).len() && #[trigger] dues(m)[k] == Some(node)) == ((exists|i: int|
            0 <= i < m.nodes.len() && (#[trigger] m.nodes[i]).node == node && !(m.nodes[i].commissioning.state is Committed)) || (exists|
            i: int,
        |
            0 <= i < m.node_key_sets.len() && (#[trigger] m.node_key_sets[i]).node == node && !(m.node_key_sets[i].status.state
                is Committed)) || (exists|i: int|
            0 <= i < m.endpoint_groups.len() && (#[trigger] m.endpoint_groups[i]).node == node && !(m.endpoint_groups[i].status.state
                is Committed))),
{
    let d = dues(m);
    let n = m.nodes.len() as int;
    let h = m.node_key_sets.len() as int;
    assert forall|i: int| 0 <= i < n implies d[i] == due((#[trigger] m.nodes[i]).node, m.nodes[i].commissioning) by {}
    assert forall|i: int| 0 <= i < h implies d[n + i] == due((#[trigger] m.node_key_sets[i]).node, m.node_key_sets[i].status) by {}
    assert forall|i: int| 0 <= i < m.endpoint_groups.len() implies d[n + h + i] == due(
        (#[trigger] m.endpoint_groups[i]).node,
        m.endpoint_groups[i].status,
    ) by {}
    if exists|k: int| 0 <= k < d.len() && #[trigger] d[k] == Some(node) {
        let k = choose|k: int| 0 <= k < d.len() && #[trigger] d[k] == Some(node);
        if k < n {
            assert(m.nodes[k].node == node);
        } else if k < n + h {
            assert(m.node_key_sets[k - n].node == node);
        } else {
            assert(m.endpoint_groups[k - n - h].node == node);
        }
    }
}

/// How the cluster describes itself follows from the features and from what the product chooses: each attribute, command and event
/// is there exactly where they say so, with who may read, write or invoke it, and nothing else is.
pub proof fn law_the_cluster_describes_itself(features: u32, o: conformance::OptionalModel, c: crate::dm::ClusterModel)
    requires
        conformance::conform(defined(), features, o) == Ok::<crate::dm::ClusterModel, ErrorCode>(c),
    ensures
        c.id == 0x0752,
        c.revision == 1,
        c.feature_map == features,
        features & !0u32 == 0,
        c.attributes.contains(conformance::shown_attribute(0x0000, None)) == (true),
        c.attributes.contains(conformance::shown_attribute(0x0001, None)) == (true),
        c.attributes.contains(conformance::shown_attribute(0x0002, None)) == (true),
        c.attributes.contains(conformance::shown_attribute(0x0003, None)) == (true),
        c.attributes.contains(conformance::shown_attribute(0x0004, None)) == (true),
        c.attributes.contains(conformance::shown_attribute(0x0005, None)) == (true),
        c.attributes.contains(conformance::shown_attribute(0x0006, None)) == (true),
        c.attributes.contains(conformance::shown_attribute(0x0007, None)) == (true),
        c.attributes.contains(conformance::shown_attribute(0x0008, None)) == (true),
        c.attributes.contains(conformance::shown_attribute(0x0009, None)) == (true),
        c.attributes.contains(conformance::shown_attribute(0x000A, None)) == (true),
        c.attributes.contains(conformance::shown_attribute(0x000B, None)) == (true),
        c.attributes.contains(conformance::shown_attribute(0x000C, None)) == (true),
        c.attributes.contains(conformance::shown_attribute(0x000D, None)) == (true),
        c.accepted_commands.contains(conformance::shown_command(0x00, Privilege::Administer, false, false, None)) == (true),
        c.accepted_commands.contains(conformance::shown_command(0x01, Privilege::Administer, false, false, None)) == (true),
        c.accepted_commands.contains(conformance::shown_command(0x02, Privilege::Administer, false, false, None)) == (true),
        c.accepted_commands.contains(conformance::shown_command(0x03, Privilege::Administer, false, false, None)) == (true),
        c.accepted_commands.contains(conformance::shown_command(0x04, Privilege::Administer, false, false, None)) == (true),
        c.accepted_commands.contains(conformance::shown_command(0x05, Privilege::Administer, false, false, None)) == (true),
        c.accepted_commands.contains(conformance::shown_command(0x06, Privilege::Administer, false, false, None)) == (true),
        c.accepted_commands.contains(conformance::shown_command(0x07, Privilege::Administer, false, false, None)) == (true),
        c.accepted_commands.contains(conformance::shown_command(0x08, Privilege::Administer, false, false, None)) == (true),
        c.accepted_commands.contains(conformance::shown_command(0x09, Privilege::Administer, false, false, None)) == (true),
        c.accepted_commands.contains(conformance::shown_command(0x0A, Privilege::Administer, false, false, None)) == (true),
        c.accepted_commands.contains(conformance::shown_command(0x0B, Privilege::Administer, false, false, None)) == (true),
        c.accepted_commands.contains(conformance::shown_command(0x0C, Privilege::Administer, false, false, None)) == (true),
        c.accepted_commands.contains(conformance::shown_command(0x0D, Privilege::Administer, false, false, None)) == (true),
        c.accepted_commands.contains(conformance::shown_command(0x0E, Privilege::Administer, false, false, None)) == (true),
        c.accepted_commands.contains(conformance::shown_command(0x0F, Privilege::Administer, false, false, None)) == (true),
        c.accepted_commands.contains(conformance::shown_command(0x10, Privilege::Administer, false, false, None)) == (true),
        c.accepted_commands.contains(conformance::shown_command(0x11, Privilege::Administer, false, false, None)) == (true),
        c.accepted_commands.contains(conformance::shown_command(0x12, Privilege::Administer, false, false, None)) == (true),
        c.accepted_commands.contains(conformance::shown_command(0x13, Privilege::Administer, false, false, None)) == (true),
        c.attributes.len() <= 14,
        c.accepted_commands.len() <= 20,
        c.events.len() <= 0,
{
    let d = defined();
    assert(conformance::told_apart(d.attributes));
    assert(conformance::told_apart(d.commands));
    assert(conformance::told_apart(d.events));
    conformance::lemma_described(d.attributes, features, o.attributes, conformance::shown_attribute(0x0000, None), 0);
    conformance::lemma_described(d.attributes, features, o.attributes, conformance::shown_attribute(0x0001, None), 1);
    conformance::lemma_described(d.attributes, features, o.attributes, conformance::shown_attribute(0x0002, None), 2);
    conformance::lemma_described(d.attributes, features, o.attributes, conformance::shown_attribute(0x0003, None), 3);
    conformance::lemma_described(d.attributes, features, o.attributes, conformance::shown_attribute(0x0004, None), 4);
    conformance::lemma_described(d.attributes, features, o.attributes, conformance::shown_attribute(0x0005, None), 5);
    conformance::lemma_described(d.attributes, features, o.attributes, conformance::shown_attribute(0x0006, None), 6);
    conformance::lemma_described(d.attributes, features, o.attributes, conformance::shown_attribute(0x0007, None), 7);
    conformance::lemma_described(d.attributes, features, o.attributes, conformance::shown_attribute(0x0008, None), 8);
    conformance::lemma_described(d.attributes, features, o.attributes, conformance::shown_attribute(0x0009, None), 9);
    conformance::lemma_described(d.attributes, features, o.attributes, conformance::shown_attribute(0x000A, None), 10);
    conformance::lemma_described(d.attributes, features, o.attributes, conformance::shown_attribute(0x000B, None), 11);
    conformance::lemma_described(d.attributes, features, o.attributes, conformance::shown_attribute(0x000C, None), 12);
    conformance::lemma_described(d.attributes, features, o.attributes, conformance::shown_attribute(0x000D, None), 13);
    conformance::lemma_described(d.commands, features, o.commands, conformance::shown_command(0x00, Privilege::Administer, false, false, None), 0);
    conformance::lemma_described(d.commands, features, o.commands, conformance::shown_command(0x01, Privilege::Administer, false, false, None), 1);
    conformance::lemma_described(d.commands, features, o.commands, conformance::shown_command(0x02, Privilege::Administer, false, false, None), 2);
    conformance::lemma_described(d.commands, features, o.commands, conformance::shown_command(0x03, Privilege::Administer, false, false, None), 3);
    conformance::lemma_described(d.commands, features, o.commands, conformance::shown_command(0x04, Privilege::Administer, false, false, None), 4);
    conformance::lemma_described(d.commands, features, o.commands, conformance::shown_command(0x05, Privilege::Administer, false, false, None), 5);
    conformance::lemma_described(d.commands, features, o.commands, conformance::shown_command(0x06, Privilege::Administer, false, false, None), 6);
    conformance::lemma_described(d.commands, features, o.commands, conformance::shown_command(0x07, Privilege::Administer, false, false, None), 7);
    conformance::lemma_described(d.commands, features, o.commands, conformance::shown_command(0x08, Privilege::Administer, false, false, None), 8);
    conformance::lemma_described(d.commands, features, o.commands, conformance::shown_command(0x09, Privilege::Administer, false, false, None), 9);
    conformance::lemma_described(d.commands, features, o.commands, conformance::shown_command(0x0A, Privilege::Administer, false, false, None), 10);
    conformance::lemma_described(d.commands, features, o.commands, conformance::shown_command(0x0B, Privilege::Administer, false, false, None), 11);
    conformance::lemma_described(d.commands, features, o.commands, conformance::shown_command(0x0C, Privilege::Administer, false, false, None), 12);
    conformance::lemma_described(d.commands, features, o.commands, conformance::shown_command(0x0D, Privilege::Administer, false, false, None), 13);
    conformance::lemma_described(d.commands, features, o.commands, conformance::shown_command(0x0E, Privilege::Administer, false, false, None), 14);
    conformance::lemma_described(d.commands, features, o.commands, conformance::shown_command(0x0F, Privilege::Administer, false, false, None), 15);
    conformance::lemma_described(d.commands, features, o.commands, conformance::shown_command(0x10, Privilege::Administer, false, false, None), 16);
    conformance::lemma_described(d.commands, features, o.commands, conformance::shown_command(0x11, Privilege::Administer, false, false, None), 17);
    conformance::lemma_described(d.commands, features, o.commands, conformance::shown_command(0x12, Privilege::Administer, false, false, None), 18);
    conformance::lemma_described(d.commands, features, o.commands, conformance::shown_command(0x13, Privilege::Administer, false, false, None), 19);
    conformance::lemma_at_most(d.attributes, features, o.attributes, d.attributes.len() as int);
    conformance::lemma_at_most(d.commands, features, o.commands, d.commands.len() as int);
    conformance::lemma_at_most(d.events, features, o.events, d.events.len() as int);
}

} // verus!
