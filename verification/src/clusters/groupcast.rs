//! Groupcast, cluster `0x0065`: joining and leaving groups, their endpoints and their keys in one
//! command.
//!
//! A listener joins with the endpoints that receive, a sender with none; one multicast address
//! serves every group that does not need its own; and a group's keys go with its last user.

use vstd::prelude::*;

use crate::bounded;
use crate::bounded::List;
use crate::clusters::dispatch::Cluster;
use crate::conformance;
use crate::conformance::{Conformance, Conforming, Definition, DefinitionModel, Optional, OptionalModel};
use crate::crypto::{SymmetricKey, SYMMETRIC_KEY_LENGTH_BYTES};
use crate::dm;
use crate::dm::{AccessQualities, Privilege};
use crate::error::ErrorCode;
use crate::fields;
use crate::fields::{Field, Fields, FromTlv, Kind, Need};
use crate::group;
use crate::group::{
    EpochKey, EpochModel, GroupKeySecurityPolicy, GroupKeySet, GroupKeys, KeySetId, KeySetModel, KeysModel, Limits, MapEntry,
};
use crate::im;
use crate::im::{
    AttributeId, ClusterHandler, ClusterId, CommandId, EndpointId, InteractionContext, InvokeAnswer, Lifecycle, ReadAnswer, Reply,
    Resolved, ResolvedCommand, Status, StatusIb, WriteOp,
};
use crate::msg::{FabricIndex, GroupId};
use crate::tlv;
use crate::tlv::{Element, Items, Tag};

verus! {

/// The cluster.
pub const ID: ClusterId = 0x0065;

/// Its revision.
pub const REVISION: u16 = 1;

/// `Membership`.
pub const MEMBERSHIP: AttributeId = 0x0000;

/// `MaxMembershipCount`.
pub const MAX_MEMBERSHIP_COUNT: AttributeId = 0x0001;

/// `MaxMcastAddrCount`.
pub const MAX_MCAST_ADDR_COUNT: AttributeId = 0x0002;

/// `UsedMcastAddrCount`.
pub const USED_MCAST_ADDR_COUNT: AttributeId = 0x0003;

/// `FabricUnderTest`.
pub const FABRIC_UNDER_TEST: AttributeId = 0x0004;

/// `JoinGroup`.
pub const JOIN_GROUP: CommandId = 0x00;

/// `LeaveGroup`.
pub const LEAVE_GROUP: CommandId = 0x01;

/// `LeaveGroupResponse`.
pub const LEAVE_GROUP_RESPONSE: CommandId = 0x02;

/// `UpdateGroupKey`.
pub const UPDATE_GROUP_KEY: CommandId = 0x03;

/// `ConfigureAuxiliaryACL`.
pub const CONFIGURE_AUXILIARY_ACL: CommandId = 0x04;

/// `LN`: the node receives what is sent to its groups.
pub const FEATURE_LISTENER: u32 = 0x01;

/// `SD`: the node sends to its groups.
pub const FEATURE_SENDER: u32 = 0x02;

/// `PGA`: a group can have a multicast address of its own.
pub const FEATURE_PER_GROUP_ADDRESS: u32 = 0x04;

/// The most endpoints that may join at once.
pub const MAX_JOIN_ENDPOINTS: usize = 20;

/// The field that says which fabric an entry belongs to.
pub const FABRIC_INDEX_FIELD: u8 = 254;

/// Which multicast address a group uses.
#[derive(Debug, Clone, Copy, PartialEq, Eq, Structural)]
pub enum MulticastAddrPolicyEnum {
    /// The one that all such groups share.
    IanaAddr,
    /// Its own.
    PerGroup,
}

/// The number that stands for an address policy.
pub open spec fn policy_value(p: MulticastAddrPolicyEnum) -> u8 {
    match p {
        MulticastAddrPolicyEnum::IanaAddr => 0,
        MulticastAddrPolicyEnum::PerGroup => 1,
    }
}

impl MulticastAddrPolicyEnum {
    /// The number that stands for it.
    pub fn value(self) -> (v: u8)
        ensures
            v == policy_value(self),
    {
        match self {
            MulticastAddrPolicyEnum::IanaAddr => 0,
            MulticastAddrPolicyEnum::PerGroup => 1,
        }
    }
}

/// One group that the node is in.
pub struct Membership<const E: usize> {
    /// The fabric.
    pub fabric_index: FabricIndex,
    /// The group.
    pub group: GroupId,
    /// The endpoints that receive; none for a sender alone.
    pub endpoints: List<EndpointId, E>,
    /// The key set that secures it.
    pub key_set: KeySetId,
    /// Whether access entries were made for it.
    pub has_auxiliary_acl: bool,
    /// Which multicast address it uses.
    pub policy: MulticastAddrPolicyEnum,
}

/// One group that the node is in, as a value.
pub struct MembershipModel {
    /// The fabric.
    pub fabric: FabricIndex,
    /// The group.
    pub group: GroupId,
    /// The endpoints that receive.
    pub endpoints: Seq<EndpointId>,
    /// The key set that secures it.
    pub key_set: KeySetId,
    /// Whether access entries were made for it.
    pub has_auxiliary_acl: bool,
    /// Which multicast address it uses.
    pub policy: MulticastAddrPolicyEnum,
}

impl<const E: usize> View for Membership<E> {
    type V = MembershipModel;

    open spec fn view(&self) -> MembershipModel {
        MembershipModel {
            fabric: self.fabric_index,
            group: self.group,
            endpoints: self.endpoints@,
            key_set: self.key_set,
            has_auxiliary_acl: self.has_auxiliary_acl,
            policy: self.policy,
        }
    }
}

/// Memberships of a fabric.
pub open spec fn of_fabric(fabric: FabricIndex) -> spec_fn(MembershipModel) -> bool {
    |m: MembershipModel| m.fabric == fabric
}

/// Memberships of other fabrics.
pub open spec fn not_of_fabric(fabric: FabricIndex) -> spec_fn(MembershipModel) -> bool {
    |m: MembershipModel| m.fabric != fabric
}

/// The membership in a group.
pub open spec fn member_is(fabric: FabricIndex, group: GroupId) -> spec_fn(MembershipModel) -> bool {
    |m: MembershipModel| m.fabric == fabric && m.group == group
}

/// Any other membership.
pub open spec fn member_is_not(fabric: FabricIndex, group: GroupId) -> spec_fn(MembershipModel) -> bool {
    |m: MembershipModel| !(m.fabric == fabric && m.group == group)
}

/// Memberships that a key set secures.
pub open spec fn uses(fabric: FabricIndex, key_set: KeySetId) -> spec_fn(MembershipModel) -> bool {
    |m: MembershipModel| m.fabric == fabric && m.key_set == key_set
}

/// Entries of the map that stay when a group is forgotten.
pub open spec fn other_groups(fabric: FabricIndex, group: GroupId) -> spec_fn(MapEntry) -> bool {
    |e: MapEntry| e.fabric == fabric && e.group != group
}

/// An endpoint.
pub open spec fn same(endpoint: EndpointId) -> spec_fn(EndpointId) -> bool {
    |e: EndpointId| e == endpoint
}

/// Any other endpoint.
pub open spec fn different(endpoint: EndpointId) -> spec_fn(EndpointId) -> bool {
    |e: EndpointId| e != endpoint
}

/// The groups and the keys.
pub struct State {
    /// The groups that the node is in.
    pub members: Seq<MembershipModel>,
    /// The keys.
    pub keys: KeysModel,
}

/// How much there may be of what, and what the node can do.
pub struct Setup {
    /// Groups in all.
    pub capacity: nat,
    /// Endpoints of one group.
    pub endpoints: nat,
    /// Groups of one fabric.
    pub per_fabric: nat,
    /// The features.
    pub features: u32,
    /// The limits on keys.
    pub limits: Limits,
}

/// What the first `n` endpoints of a join come to: each once, none the root, and not too many.
pub open spec fn joined_endpoints(b: Seq<u8>, items: Seq<Element>, n: int, cap: nat) -> Result<Seq<EndpointId>, Status>
    decreases n,
{
    if n <= 0 {
        Ok(Seq::empty())
    } else {
        match joined_endpoints(b, items, n - 1, cap) {
            Err(status) => Err(status),
            Ok(before) => match <u16 as FromTlv>::of(b, items[n - 1]) {
                Err(_) => Err(Status::InvalidCommand),
                Ok(endpoint) => if endpoint == 0 {
                    Err(Status::UnsupportedEndpoint)
                } else if bounded::first(before, same(endpoint)) is Some {
                    Ok(before)
                } else if before.len() >= MAX_JOIN_ENDPOINTS {
                    Err(Status::ConstraintError)
                } else if before.len() >= cap {
                    Err(Status::ResourceExhausted)
                } else {
                    Ok(before.push(endpoint))
                },
            },
        }
    }
}

/// What went wrong early stays wrong.
proof fn lemma_joined_err(b: Seq<u8>, items: Seq<Element>, i: int, n: int, cap: nat)
    requires
        i <= n,
        joined_endpoints(b, items, i, cap) is Err,
    ensures
        joined_endpoints(b, items, n, cap) == joined_endpoints(b, items, i, cap),
    decreases n - i,
{
    if i < n {
        lemma_joined_err(b, items, i, n - 1, cap);
    }
}

/// The endpoints of a group with the first `n` more, those that are new, and whether all fitted;
/// the first that does not fit ends it.
pub open spec fn merged(have: Seq<EndpointId>, more: Seq<EndpointId>, n: int, cap: nat) -> (Seq<EndpointId>, bool)
    decreases n,
{
    if n <= 0 {
        (have, true)
    } else {
        let (before, fitted) = merged(have, more, n - 1, cap);
        if !fitted || bounded::first(before, same(more[n - 1])) is Some {
            (before, fitted)
        } else if before.len() >= cap {
            (before, false)
        } else {
            (before.push(more[n - 1]), true)
        }
    }
}

/// What did not fit stays out.
proof fn lemma_merged_stuck(have: Seq<EndpointId>, more: Seq<EndpointId>, i: int, n: int, cap: nat)
    requires
        0 <= i <= n,
        !merged(have, more, i, cap).1,
    ensures
        merged(have, more, n, cap) == merged(have, more, i, cap),
    decreases n - i,
{
    if i < n {
        lemma_merged_stuck(have, more, i, n - 1, cap);
    }
}

/// The key set that a join's own key makes.
pub open spec fn made_set(fabric: FabricIndex, id: KeySetId, key: Seq<u8>) -> KeySetModel {
    KeySetModel {
        fabric,
        id,
        policy: GroupKeySecurityPolicy::TrustFirst,
        epochs: seq![EpochModel { key, start: 1 }],
    }
}

/// A key makes a new key set; without one the key set has to be there.
pub open spec fn key_installed(k: KeysModel, l: Limits, fabric: FabricIndex, id: KeySetId, key: Option<Seq<u8>>) -> (
    KeysModel,
    Option<Status>,
) {
    match key {
        Some(key) => if key.len() != SYMMETRIC_KEY_LENGTH_BYTES {
            (k, Some(Status::ConstraintError))
        } else if group::set_at(k, fabric, id) is Some {
            (k, Some(Status::AlreadyExists))
        } else {
            group::set_written(k, l, made_set(fabric, id, key))
        },
        None => if group::set_at(k, fabric, id) is None {
            (k, Some(Status::NotFound))
        } else {
            (k, None)
        },
    }
}

/// What `JoinGroup` asks for.
pub struct Join {
    /// The group.
    pub group: GroupId,
    /// The endpoints, each once.
    pub endpoints: Seq<EndpointId>,
    /// The key set.
    pub key_set: KeySetId,
    /// A key for a new key set.
    pub key: Option<Seq<u8>>,
    /// Whether access entries are to be made.
    pub use_auxiliary_acl: Option<bool>,
    /// Whether the endpoints replace those that are there.
    pub replace_endpoints: bool,
    /// Which multicast address to use.
    pub policy: MulticastAddrPolicyEnum,
}

/// The fields of `JoinGroup`.
pub open spec fn join_schema() -> Seq<Field> {
    seq![
        Field(0, Kind::U16, Need::Required),
        Field(1, Kind::Array, Need::Required),
        Field(2, Kind::U16, Need::Required),
        Field(3, Kind::Octets, Need::Optional),
        Field(4, Kind::Bool, Need::Optional),
        Field(5, Kind::Bool, Need::Optional),
        Field(6, Kind::Enum(1), Need::Optional),
    ]
}

/// Whether the accessing subject holds Administer.
pub open spec fn administers(ctx: InteractionContext) -> bool {
    ctx.privilege matches Some(p) && p.covers(Privilege::Administer)
}

/// What `JoinGroup` asks for, or why it is refused before anything is touched.
pub open spec fn join_request(s: Setup, b: Seq<u8>, ctx: InteractionContext) -> Result<Join, Status> {
    match fields::decode(b, join_schema()) {
        Err(status) => Err(status),
        Ok(items) => match (fields::num16(items, 0), fields::container(items, 1), fields::num16(items, 2)) {
            (Some(group), Some(list), Some(key_set)) => if group == 0 || key_set == 0 {
                Err(Status::ConstraintError)
            } else {
                let inner = tlv::scan(b, list as int).items;
                match joined_endpoints(b, inner, inner.len() as int, s.endpoints) {
                    Err(status) => Err(status),
                    Ok(endpoints) => {
                        let policy = if fields::num(items, 6) == Some(1u64) {
                            MulticastAddrPolicyEnum::PerGroup
                        } else {
                            MulticastAddrPolicyEnum::IanaAddr
                        };
                        if endpoints.len() == 0 && s.features & FEATURE_SENDER == 0 {
                            Err(Status::ConstraintError)
                        } else if endpoints.len() > 0 && s.features & FEATURE_LISTENER == 0 {
                            Err(Status::ConstraintError)
                        } else if fields::flag(items, 4) is Some && !administers(ctx) {
                            Err(Status::UnsupportedAccess)
                        } else if policy is PerGroup && s.features & FEATURE_PER_GROUP_ADDRESS == 0 {
                            Err(Status::ConstraintError)
                        } else {
                            Ok(
                                Join {
                                    group: GroupId(group),
                                    endpoints,
                                    key_set,
                                    key: fields::octets(b, items, 3),
                                    use_auxiliary_acl: fields::flag(items, 4),
                                    replace_endpoints: fields::flag(items, 5) == Some(true),
                                    policy,
                                },
                            )
                        }
                    },
                }
            },
            _ => Err(Status::InvalidCommand),
        },
    }
}

/// What a join comes to: the key first, then the group, then which key secures it. A step that is
/// refused leaves what the steps before it did.
pub open spec fn joined(st: State, s: Setup, fabric: FabricIndex, j: Join) -> (State, Option<Status>) {
    let (keys, refusal) = key_installed(st.keys, s.limits, fabric, j.key_set, j.key);
    if refusal is Some {
        (State { keys, ..st }, refusal)
    } else {
        match bounded::first(st.members, member_is(fabric, j.group)) {
            Some(i) => {
                let entry = st.members[i];
                let have = if j.replace_endpoints { Seq::empty() } else { entry.endpoints };
                let (endpoints, fitted) = merged(have, j.endpoints, j.endpoints.len() as int, s.endpoints);
                if !fitted {
                    (
                        State { members: st.members.update(i, MembershipModel { endpoints, ..entry }), keys },
                        Some(Status::ResourceExhausted),
                    )
                } else {
                    let members = st.members.update(
                        i,
                        MembershipModel {
                            endpoints,
                            key_set: j.key_set,
                            policy: j.policy,
                            has_auxiliary_acl: match j.use_auxiliary_acl {
                                Some(v) => v,
                                None => entry.has_auxiliary_acl,
                            },
                            ..entry
                        },
                    );
                    let (mapped, refusal) = group::group_mapped(keys, s.limits, fabric, j.group, j.key_set);
                    (State { members, keys: mapped }, refusal)
                }
            },
            None => if bounded::count(st.members, of_fabric(fabric)) >= s.per_fabric || st.members.len() >= s.capacity {
                (State { keys, ..st }, Some(Status::ResourceExhausted))
            } else {
                let members = st.members.push(
                    MembershipModel {
                        fabric,
                        group: j.group,
                        endpoints: j.endpoints,
                        key_set: j.key_set,
                        has_auxiliary_acl: j.use_auxiliary_acl == Some(true),
                        policy: j.policy,
                    },
                );
                let (mapped, refusal) = group::group_mapped(keys, s.limits, fabric, j.group, j.key_set);
                (State { members, keys: mapped }, refusal)
            },
        }
    }
}

/// The pairs of entries.
pub open spec fn pairs_of(entries: Seq<MapEntry>) -> Seq<(GroupId, KeySetId)> {
    entries.map_values(|e: MapEntry| (e.group, e.key_set))
}

/// Forgetting a group: it and its entry go, and its key set too where no other group of the fabric
/// uses it.
pub open spec fn forgotten(st: State, l: Limits, fabric: FabricIndex, group: GroupId) -> State {
    let members = st.members.filter(member_is_not(fabric, group));
    let keys = group::map_replaced(st.keys, l, fabric, pairs_of(st.keys.map.filter(other_groups(fabric, group)))).0;
    match bounded::first(st.members, member_is(fabric, group)) {
        None => State { members, keys },
        Some(i) => {
            let key_set = st.members[i].key_set;
            if bounded::first(members, uses(fabric, key_set)) is Some {
                State { members, keys }
            } else {
                State { members, keys: group::set_removed(keys, fabric, key_set).0 }
            }
        },
    }
}

/// Forgetting the first `n` of some groups, one after the other.
pub open spec fn all_forgotten(st: State, l: Limits, fabric: FabricIndex, groups: Seq<GroupId>, n: int) -> State
    decreases n,
{
    if n <= 0 {
        st
    } else {
        forgotten(all_forgotten(st, l, fabric, groups, n - 1), l, fabric, groups[n - 1])
    }
}

/// The groups of a fabric, in order.
pub open spec fn groups_of(members: Seq<MembershipModel>, fabric: FabricIndex) -> Seq<GroupId> {
    members.filter(of_fabric(fabric)).map_values(|m: MembershipModel| m.group)
}

/// The endpoints that stay, and those that left, after the first `n` items of a list that names
/// those to leave; one that is no member, or no endpoint, is ignored.
pub open spec fn parted(b: Seq<u8>, items: Seq<Element>, n: int, have: Seq<EndpointId>, cap: nat) -> (
    Seq<EndpointId>,
    Seq<EndpointId>,
)
    decreases n,
{
    if n <= 0 {
        (have, Seq::empty())
    } else {
        let (stay, left) = parted(b, items, n - 1, have, cap);
        match <u16 as FromTlv>::of(b, items[n - 1]) {
            Err(_) => (stay, left),
            Ok(endpoint) => if bounded::first(stay, same(endpoint)) is Some {
                (stay.filter(different(endpoint)), if left.len() < cap { left.push(endpoint) } else { left })
            } else {
                (stay, left)
            },
        }
    }
}

/// Endpoints, encoded.
pub open spec fn endpoint_bytes() -> spec_fn(EndpointId) -> Seq<u8> {
    |e: EndpointId| tlv::unsigned_bytes(Tag::Anonymous, e as u64)
}

/// The answer to `LeaveGroup`.
pub open spec fn leave_response(group: GroupId, left: Seq<EndpointId>, tag: Tag) -> Seq<u8> {
    tlv::structure_bytes(
        tag,
        tlv::unsigned_bytes(Tag::Context(0), group.0 as u64) + tlv::array_bytes(
            Tag::Context(1),
            tlv::concat(left, endpoint_bytes()),
        ),
    )
}

/// The fields of `LeaveGroup`.
pub open spec fn leave_schema() -> Seq<Field> {
    seq![Field(0, Kind::U16, Need::Required), Field(1, Kind::Array, Need::Optional)]
}

/// What `LeaveGroup` comes to: group zero stands for all; a list withdraws endpoints, and the last
/// takes the group with it unless the node sends; no list withdraws the group.
pub open spec fn left(st: State, s: Setup, fabric: FabricIndex, b: Seq<u8>, tag: Tag) -> (State, InvokeAnswer) {
    match fields::decode(b, leave_schema()) {
        Err(status) => (st, im::refused(status)),
        Ok(items) => match fields::num16(items, 0) {
            None => (st, im::refused(Status::InvalidCommand)),
            Some(id) => {
                let group = GroupId(id);
                if id == 0 {
                    let groups = groups_of(st.members, fabric);
                    if groups.len() == 0 {
                        (st, im::refused(Status::NotFound))
                    } else {
                        (
                            all_forgotten(st, s.limits, fabric, groups, groups.len() as int),
                            Ok((Some(LEAVE_GROUP_RESPONSE), leave_response(group, Seq::empty(), tag))),
                        )
                    }
                } else {
                    match bounded::first(st.members, member_is(fabric, group)) {
                        None => (st, im::refused(Status::NotFound)),
                        Some(i) => match fields::container(items, 1) {
                            Some(list) => {
                                let inner = tlv::scan(b, list as int).items;
                                let (stay, gone) = parted(
                                    b,
                                    inner,
                                    inner.len() as int,
                                    st.members[i].endpoints,
                                    s.endpoints,
                                );
                                let after = State {
                                    members: st.members.update(
                                        i,
                                        MembershipModel { endpoints: stay, ..st.members[i] },
                                    ),
                                    ..st
                                };
                                (
                                    if stay.len() == 0 && s.features & FEATURE_SENDER == 0 {
                                        forgotten(after, s.limits, fabric, group)
                                    } else {
                                        after
                                    },
                                    Ok((Some(LEAVE_GROUP_RESPONSE), leave_response(group, gone, tag))),
                                )
                            },
                            None => (
                                forgotten(st, s.limits, fabric, group),
                                Ok((Some(LEAVE_GROUP_RESPONSE), leave_response(group, st.members[i].endpoints, tag))),
                            ),
                        },
                    }
                }
            },
        },
    }
}

/// The fields of `UpdateGroupKey`.
pub open spec fn update_schema() -> Seq<Field> {
    seq![
        Field(0, Kind::U16, Need::Required),
        Field(1, Kind::U16, Need::Required),
        Field(2, Kind::Octets, Need::Optional),
    ]
}

/// What `UpdateGroupKey` comes to: the group has to be there, then its key, then the map.
pub open spec fn key_updated(st: State, s: Setup, fabric: FabricIndex, b: Seq<u8>) -> (State, InvokeAnswer) {
    match fields::decode(b, update_schema()) {
        Err(status) => (st, im::refused(status)),
        Ok(items) => match (fields::num16(items, 0), fields::num16(items, 1)) {
            (Some(id), Some(key_set)) => if id == 0 || key_set == 0 {
                (st, im::refused(Status::ConstraintError))
            } else {
                let group = GroupId(id);
                match bounded::first(st.members, member_is(fabric, group)) {
                    None => (st, im::refused(Status::NotFound)),
                    Some(i) => match key_installed(st.keys, s.limits, fabric, key_set, fields::octets(b, items, 2)) {
                        (keys, Some(status)) => (State { keys, ..st }, im::refused(status)),
                        (keys, None) => {
                            let members = st.members.update(i, MembershipModel { key_set, ..st.members[i] });
                            match group::group_mapped(keys, s.limits, fabric, group, key_set) {
                                (keys, Some(status)) => (State { members, keys }, im::refused(status)),
                                (keys, None) => (State { members, keys }, im::done()),
                            }
                        },
                    },
                }
            },
            _ => (st, im::refused(Status::InvalidCommand)),
        },
    }
}

/// The fields of `ConfigureAuxiliaryACL`.
pub open spec fn acl_schema() -> Seq<Field> {
    seq![Field(0, Kind::U16, Need::Required), Field(1, Kind::Bool, Need::Required)]
}

/// What `ConfigureAuxiliaryACL` comes to.
pub open spec fn acl_configured(st: State, fabric: FabricIndex, b: Seq<u8>) -> (State, InvokeAnswer) {
    match fields::decode(b, acl_schema()) {
        Err(status) => (st, im::refused(status)),
        Ok(items) => match (fields::num16(items, 0), fields::flag(items, 1)) {
            (Some(id), Some(wanted)) => match bounded::first(st.members, member_is(fabric, GroupId(id))) {
                None => (st, im::refused(Status::NotFound)),
                Some(i) => (
                    State {
                        members: st.members.update(
                            i,
                            MembershipModel { has_auxiliary_acl: wanted, ..st.members[i] },
                        ),
                        ..st
                    },
                    im::done(),
                ),
            },
            _ => (st, im::refused(Status::InvalidCommand)),
        },
    }
}

/// What a command comes to: the groups and keys after it, and the answer.
pub open spec fn commanded(
    st: State,
    s: Setup,
    command: CommandId,
    data: Option<Seq<u8>>,
    ctx: InteractionContext,
    tag: Tag,
) -> (State, InvokeAnswer) {
    match (ctx.accessing(), data) {
        (None, _) => (st, im::refused(Status::UnsupportedAccess)),
        (_, None) => (st, im::refused(Status::InvalidCommand)),
        (Some(fabric), Some(b)) => if command == JOIN_GROUP {
            match join_request(s, b, ctx) {
                Err(status) => (st, im::refused(status)),
                Ok(j) => match joined(st, s, fabric, j) {
                    (after, Some(status)) => (after, im::refused(status)),
                    (after, None) => (after, im::done()),
                },
            }
        } else if command == LEAVE_GROUP {
            left(st, s, fabric, b, tag)
        } else if command == UPDATE_GROUP_KEY {
            key_updated(st, s, fabric, b)
        } else if command == CONFIGURE_AUXILIARY_ACL {
            acl_configured(st, fabric, b)
        } else {
            (st, im::refused(Status::UnsupportedCommand))
        },
    }
}

/// Groupcast: at most `M` groups of at most `E` endpoints, over at most `K` key sets and `G` mapped
/// groups.
#[verifier::reject_recursive_types(E)]
pub struct Groupcast<const M: usize, const E: usize, const K: usize, const G: usize> {
    /// The keys.
    pub keys: GroupKeys<K, G>,
    /// The groups that the node is in.
    pub memberships: List<Membership<E>, M>,
    /// The features.
    pub feature_map: u32,
    /// `MaxMembershipCount`.
    pub max_membership: u16,
    /// `MaxMcastAddrCount`.
    pub max_addresses: u16,
    /// `FabricUnderTest`.
    pub fabric_under_test: FabricIndex,
}

impl<const M: usize, const E: usize, const K: usize, const G: usize> Groupcast<M, E, K, G> {
    /// The description for features and for what the product chooses.
    pub fn conforming(features: u32, optional: &Optional) -> (r: Result<Conforming, ErrorCode>)
        ensures
            conformance::outcome(r) == conformance::conform(defined(), features, optional@),
    {
        Conforming::new(&definition(), features, optional)
    }

    /// The groups and the keys.
    pub open spec fn state(&self) -> State {
        State { members: self.memberships.models(), keys: self.keys@ }
    }

    /// How much there may be of what, and what the node can do.
    pub open spec fn setup(&self) -> Setup {
        Setup {
            capacity: M as nat,
            endpoints: E as nat,
            per_fabric: (self.max_membership / 2) as nat,
            features: self.feature_map,
            limits: self.keys.limits(),
        }
    }

    /// What no command changes.
    pub open spec fn same_setup(&self, other: &Self) -> bool {
        &&& self.feature_map == other.feature_map
        &&& self.max_membership == other.max_membership
        &&& self.max_addresses == other.max_addresses
        &&& self.fabric_under_test == other.fabric_under_test
        &&& self.keys.limits() == other.keys.limits()
    }

    /// A node in no group, over its keys.
    pub fn new(keys: GroupKeys<K, G>, feature_map: u32) -> (c: Self)
        ensures
            c.state() == (State { members: Seq::empty(), keys: keys@ }),
            c.feature_map == feature_map,
            c.max_membership == (if M > u16::MAX { u16::MAX as int } else { M as int }),
            c.max_addresses == 1,
            c.fabric_under_test == FabricIndex(0),
    {
        let memberships: List<Membership<E>, M> = List::new();
        proof {
            assert(memberships.models() =~= Seq::<MembershipModel>::empty());
        }
        let max_membership: u16 = if M > 0xFFFF {
            0xFFFF
        } else {
            M as u16
        };
        Groupcast {
            keys,
            memberships,
            feature_map,
            max_membership,
            max_addresses: 1,
            fabric_under_test: FabricIndex(0),
        }
    }

    /// Takes the node's keys to work on, and gives back those it had: they are the node's, and more
    /// than one cluster works on them.
    pub fn exchange(&mut self, keys: &mut GroupKeys<K, G>)
        ensures
            *final(self) == (Groupcast { keys: *old(keys), ..*old(self) }),
            *final(keys) == old(self).keys,
    {
        std::mem::swap(&mut self.keys, keys);
    }

    /// The same with another number of multicast addresses.
    pub fn with_max_addresses(self, max: u16) -> (c: Self)
        ensures
            c.max_addresses == max,
            c.state() == self.state(),
            c.feature_map == self.feature_map,
            c.max_membership == self.max_membership,
    {
        Groupcast { max_addresses: max, ..self }
    }

    /// The groups that the node is in.
    pub fn memberships(&self) -> (m: &[Membership<E>])
        ensures
            bounded::models(m@) == self.memberships.models(),
    {
        self.memberships.as_slice()
    }

    /// Whether the node receives what is sent to its groups.
    pub fn is_listener(&self) -> (r: bool)
        ensures
            r == (self.feature_map & FEATURE_LISTENER != 0),
    {
        self.feature_map & FEATURE_LISTENER != 0
    }

    /// Whether the node sends to its groups.
    pub fn is_sender(&self) -> (r: bool)
        ensures
            r == (self.feature_map & FEATURE_SENDER != 0),
    {
        self.feature_map & FEATURE_SENDER != 0
    }

    /// How many groups one fabric may have: half of all, rounded down.
    pub fn per_fabric_limit(&self) -> (n: usize)
        ensures
            n == self.max_membership / 2,
    {
        (self.max_membership / 2) as usize
    }

    /// Forgets the groups of a fabric.
    pub fn remove_fabric(&mut self, fabric: FabricIndex)
        ensures
            final(self).state() == (State {
                members: old(self).memberships.models().filter(not_of_fabric(fabric)),
                keys: old(self).keys@,
            }),
            final(self).same_setup(old(self)),
    {
        self.memberships.keep(
            |m: &Membership<E>| -> (b: bool)
                ensures
                    b == (m.fabric_index != fabric)
                { m.fabric_index.0 != fabric.0 },
            Ghost(not_of_fabric(fabric)),
        );
    }

    fn count_groups(&self, fabric: FabricIndex) -> (n: usize)
        ensures
            n == bounded::count(self.memberships.models(), of_fabric(fabric)),
    {
        self.memberships.tally(
            |m: &Membership<E>| -> (b: bool)
                ensures
                    b == (m.fabric_index == fabric)
                { m.fabric_index.0 == fabric.0 },
            Ghost(of_fabric(fabric)),
        )
    }

    fn find(&self, fabric: FabricIndex, group: GroupId) -> (at: Option<usize>)
        ensures
            match at {
                Some(i) => bounded::first(self.memberships.models(), member_is(fabric, group)) == Some(i as int) && i
                    < self.memberships.models().len(),
                None => bounded::first(self.memberships.models(), member_is(fabric, group)) is None,
            },
    {
        self.memberships.find(
            |m: &Membership<E>| -> (b: bool)
                ensures
                    b == (m.fabric_index == fabric && m.group == group)
                { m.fabric_index.0 == fabric.0 && m.group.0 == group.0 },
            Ghost(member_is(fabric, group)),
        )
    }

    fn install_key(&mut self, fabric: FabricIndex, id: KeySetId, key: Option<&[u8]>) -> (r: Result<(), Status>)
        ensures
            (final(self).keys@, group::refusal(r)) == key_installed(
                old(self).keys@,
                old(self).keys.limits(),
                fabric,
                id,
                im::octets(key),
            ),
            final(self).memberships.models() == old(self).memberships.models(),
            final(self).same_setup(old(self)),
    {
        match key {
            Some(key) => {
                match SymmetricKey::from_slice(key) {
                    None => Err(Status::ConstraintError),
                    Some(secret) => {
                        if self.keys.key_set(fabric, id).is_some() {
                            return Err(Status::AlreadyExists);
                        }
                        let mut epoch_keys: List<EpochKey, 3> = List::new();
                        let _ = epoch_keys.add(EpochKey { key: secret, start_time_us: 1 });
                        let set: GroupKeySet = GroupKeySet {
                            fabric_index: fabric,
                            id,
                            policy: GroupKeySecurityPolicy::TrustFirst,
                            epoch_keys,
                        };
                        proof {
                            assert(set@.epochs =~= made_set(fabric, id, key@).epochs);
                        }
                        self.keys.write_key_set(set)
                    },
                }
            },
            None => if self.keys.key_set(fabric, id).is_none() {
                Err(Status::NotFound)
            } else {
                Ok(())
            },
        }
    }

    fn forget(&mut self, fabric: FabricIndex, group: GroupId)
        ensures
            final(self).state() == forgotten(old(self).state(), old(self).keys.limits(), fabric, group),
            final(self).same_setup(old(self)),
    {
        let key_set: Option<KeySetId> = match self.find(fabric, group) {
            Some(i) => {
                proof {
                    assert(self.memberships.models()[i as int] == self.memberships@[i as int]@);
                }
                Some(self.memberships.get(i).key_set)
            },
            None => None,
        };
        self.memberships.keep(
            |m: &Membership<E>| -> (b: bool)
                ensures
                    b == (!(m.fabric_index == fabric && m.group == group))
                { !(m.fabric_index.0 == fabric.0 && m.group.0 == group.0) },
            Ghost(member_is_not(fabric, group)),
        );
        let remaining: Vec<(GroupId, KeySetId)> = remaining_of(self.keys.map(), fabric, group);
        let _ = self.keys.replace_map(fabric, &remaining);
        if let Some(key_set) = key_set {
            let used: Option<usize> = self.memberships.find(
                |m: &Membership<E>| -> (b: bool)
                    ensures
                        b == (m.fabric_index == fabric && m.key_set == key_set)
                    { m.fabric_index.0 == fabric.0 && m.key_set == key_set },
                Ghost(uses(fabric, key_set)),
            );
            if used.is_none() {
                let _ = self.keys.remove_key_set(fabric, key_set);
            }
        }
    }

    fn apply_join(&mut self, fabric: FabricIndex, j: Joining<E>) -> (r: Result<(), Status>)
        ensures
            (final(self).state(), group::refusal(r)) == joined(old(self).state(), old(self).setup(), fabric, j@),
            final(self).same_setup(old(self)),
    {
        if let Err(status) = self.install_key(fabric, j.key_set, j.key) {
            return Err(status);
        }
        match self.find(fabric, j.group) {
            Some(i) => {
                let ghost entry = self.memberships.models()[i as int];
                proof {
                    assert(entry == self.memberships@[i as int]@);
                }
                let current: &Membership<E> = self.memberships.get(i);
                let mut endpoints: List<EndpointId, E> = List::new();
                if !j.replace_endpoints {
                    endpoints = current.endpoints.copy();
                }
                let fitted: bool = merge(&mut endpoints, j.endpoints.as_slice());
                let key_set: KeySetId = if fitted { j.key_set } else { current.key_set };
                let policy: MulticastAddrPolicyEnum = if fitted { j.policy } else { current.policy };
                let has_auxiliary_acl: bool = match j.use_auxiliary_acl {
                    Some(v) => if fitted { v } else { current.has_auxiliary_acl },
                    None => current.has_auxiliary_acl,
                };
                let next: Membership<E> = Membership {
                    fabric_index: current.fabric_index,
                    group: current.group,
                    endpoints,
                    key_set,
                    has_auxiliary_acl,
                    policy,
                };
                self.memberships.replace(i, next);
                if !fitted {
                    return Err(Status::ResourceExhausted);
                }
            },
            None => {
                if self.count_groups(fabric) >= self.per_fabric_limit() {
                    return Err(Status::ResourceExhausted);
                }
                let has_auxiliary_acl: bool = match j.use_auxiliary_acl {
                    Some(v) => v,
                    None => false,
                };
                let added: bool = self.memberships.add(
                    Membership {
                        fabric_index: fabric,
                        group: j.group,
                        endpoints: j.endpoints,
                        key_set: j.key_set,
                        has_auxiliary_acl,
                        policy: j.policy,
                    },
                );
                if !added {
                    return Err(Status::ResourceExhausted);
                }
            },
        }
        self.keys.map_group(fabric, j.group, j.key_set)
    }

    fn leave(&mut self, fabric: FabricIndex, data: &[u8], tag: Tag) -> (a: Result<Reply, StatusIb>)
        ensures
            (final(self).state(), im::invoke_answer(a)) == left(old(self).state(), old(self).setup(), fabric, data@, tag),
            final(self).same_setup(old(self)),
    {
        let schema: Vec<Field> = vec![Field(0, Kind::U16, Need::Required), Field(1, Kind::Array, Need::Optional)];
        proof {
            assert(schema@ =~= leave_schema());
        }
        let f: Fields = match fields::read(data, &schema) {
            Err(status) => return im::refuse(status),
            Ok(f) => f,
        };
        let id: u16 = match f.num16(0) {
            None => return im::refuse(Status::InvalidCommand),
            Some(id) => id,
        };
        let group: GroupId = GroupId(id);
        if id == 0 {
            let groups: Vec<GroupId> = self.groups(fabric);
            if groups.len() == 0 {
                return im::refuse(Status::NotFound);
            }
            let mut n: usize = 0;
            let ghost limits = self.keys.limits();
            while n < groups.len()
                invariant
                    n <= groups@.len(),
                    limits == old(self).keys.limits(),
                    self.state() == all_forgotten(old(self).state(), limits, fabric, groups@, n as int),
                    self.same_setup(old(self)),
                decreases groups.len() - n,
            {
                self.forget(fabric, groups[n]);
                n = n + 1;
            }
            let nothing: List<EndpointId, E> = List::new();
            return im::respond(LEAVE_GROUP_RESPONSE, encode_left(group, nothing.as_slice(), tag));
        }
        let i: usize = match self.find(fabric, group) {
            None => return im::refuse(Status::NotFound),
            Some(i) => i,
        };
        let ghost entry = self.memberships.models()[i as int];
        proof {
            assert(entry == self.memberships@[i as int]@);
        }
        match f.container(1) {
            Some(list) => {
                let inner: Items = tlv::read_items(data, list);
                let current: &Membership<E> = self.memberships.get(i);
                let (stay, gone) = part(data, &inner.items, &current.endpoints);
                let emptied: bool = stay.len() == 0;
                let next: Membership<E> = Membership {
                    fabric_index: current.fabric_index,
                    group: current.group,
                    endpoints: stay,
                    key_set: current.key_set,
                    has_auxiliary_acl: current.has_auxiliary_acl,
                    policy: current.policy,
                };
                self.memberships.replace(i, next);
                if emptied && !self.is_sender() {
                    self.forget(fabric, group);
                }
                im::respond(LEAVE_GROUP_RESPONSE, encode_left(group, gone.as_slice(), tag))
            },
            None => {
                let gone: List<EndpointId, E> = self.memberships.get(i).endpoints.copy();
                self.forget(fabric, group);
                im::respond(LEAVE_GROUP_RESPONSE, encode_left(group, gone.as_slice(), tag))
            },
        }
    }

    fn groups(&self, fabric: FabricIndex) -> (groups: Vec<GroupId>)
        ensures
            groups@ == groups_of(self.memberships.models(), fabric),
    {
        let items: &[Membership<E>] = self.memberships.as_slice();
        let ghost models = self.memberships.models();
        let ghost f = |m: MembershipModel| m.group;
        let mut groups: Vec<GroupId> = Vec::new();
        let mut i: usize = 0;
        proof {
            reveal(Seq::filter);
            assert(models.take(0) =~= Seq::<MembershipModel>::empty());
            assert(groups@ =~= models.take(0).filter(of_fabric(fabric)).map_values(f));
        }
        while i < items.len()
            invariant
                i <= items@.len() == models.len(),
                models == bounded::models(items@),
                f == (|m: MembershipModel| m.group),
                groups@ == models.take(i as int).filter(of_fabric(fabric)).map_values(f),
            decreases items.len() - i,
        {
            let ghost before = models.take(i as int).filter(of_fabric(fabric));
            proof {
                assert(models[i as int] == items@[i as int]@);
                bounded::lemma_filter_take(models, i as int, of_fabric(fabric));
            }
            if items[i].fabric_index.0 == fabric.0 {
                groups.push(items[i].group);
                proof {
                    assert(groups@ =~= before.push(models[i as int]).map_values(f));
                }
            }
            i = i + 1;
        }
        proof {
            assert(models.take(i as int) =~= models);
        }
        groups
    }

    fn update_key(&mut self, fabric: FabricIndex, data: &[u8]) -> (a: Result<Reply, StatusIb>)
        ensures
            (final(self).state(), im::invoke_answer(a)) == key_updated(old(self).state(), old(self).setup(), fabric, data@),
            final(self).same_setup(old(self)),
    {
        let schema: Vec<Field> = vec![
            Field(0, Kind::U16, Need::Required),
            Field(1, Kind::U16, Need::Required),
            Field(2, Kind::Octets, Need::Optional),
        ];
        proof {
            assert(schema@ =~= update_schema());
        }
        let f: Fields = match fields::read(data, &schema) {
            Err(status) => return im::refuse(status),
            Ok(f) => f,
        };
        match (f.num16(0), f.num16(1)) {
            (Some(id), Some(key_set)) => {
                if id == 0 || key_set == 0 {
                    return im::refuse(Status::ConstraintError);
                }
                let group: GroupId = GroupId(id);
                let i: usize = match self.find(fabric, group) {
                    None => return im::refuse(Status::NotFound),
                    Some(i) => i,
                };
                if let Err(status) = self.install_key(fabric, key_set, f.octets(2)) {
                    return im::refuse(status);
                }
                proof {
                    assert(self.memberships.models()[i as int] == self.memberships@[i as int]@);
                }
                let current: &Membership<E> = self.memberships.get(i);
                let next: Membership<E> = Membership {
                    fabric_index: current.fabric_index,
                    group: current.group,
                    endpoints: current.endpoints.copy(),
                    key_set,
                    has_auxiliary_acl: current.has_auxiliary_acl,
                    policy: current.policy,
                };
                self.memberships.replace(i, next);
                match self.keys.map_group(fabric, group, key_set) {
                    Err(status) => im::refuse(status),
                    Ok(_) => im::no_response(),
                }
            },
            _ => im::refuse(Status::InvalidCommand),
        }
    }

    fn configure_auxiliary_acl(&mut self, fabric: FabricIndex, data: &[u8]) -> (a: Result<Reply, StatusIb>)
        ensures
            (final(self).state(), im::invoke_answer(a)) == acl_configured(old(self).state(), fabric, data@),
            final(self).same_setup(old(self)),
    {
        let schema: Vec<Field> = vec![Field(0, Kind::U16, Need::Required), Field(1, Kind::Bool, Need::Required)];
        proof {
            assert(schema@ =~= acl_schema());
        }
        let f: Fields = match fields::read(data, &schema) {
            Err(status) => return im::refuse(status),
            Ok(f) => f,
        };
        match (f.num16(0), f.flag(1)) {
            (Some(id), Some(wanted)) => {
                let i: usize = match self.find(fabric, GroupId(id)) {
                    None => return im::refuse(Status::NotFound),
                    Some(i) => i,
                };
                proof {
                    assert(self.memberships.models()[i as int] == self.memberships@[i as int]@);
                }
                let current: &Membership<E> = self.memberships.get(i);
                let next: Membership<E> = Membership {
                    fabric_index: current.fabric_index,
                    group: current.group,
                    endpoints: current.endpoints.copy(),
                    key_set: current.key_set,
                    has_auxiliary_acl: wanted,
                    policy: current.policy,
                };
                self.memberships.replace(i, next);
                im::no_response()
            },
            _ => im::refuse(Status::InvalidCommand),
        }
    }

    fn read_join<'b>(&self, data: &'b [u8], ctx: &InteractionContext) -> (r: Result<Joining<'b, E>, Status>)
        ensures
            match r {
                Ok(j) => join_request(self.setup(), data@, *ctx) == Ok::<Join, Status>(j@),
                Err(status) => join_request(self.setup(), data@, *ctx) == Err::<Join, Status>(status),
            },
    {
        let schema: Vec<Field> = vec![
            Field(0, Kind::U16, Need::Required),
            Field(1, Kind::Array, Need::Required),
            Field(2, Kind::U16, Need::Required),
            Field(3, Kind::Octets, Need::Optional),
            Field(4, Kind::Bool, Need::Optional),
            Field(5, Kind::Bool, Need::Optional),
            Field(6, Kind::Enum(1), Need::Optional),
        ];
        proof {
            assert(schema@ =~= join_schema());
        }
        let f: Fields<'b> = match fields::read(data, &schema) {
            Err(status) => return Err(status),
            Ok(f) => f,
        };
        match (f.num16(0), f.container(1), f.num16(2)) {
            (Some(group), Some(list), Some(key_set)) => {
                if group == 0 || key_set == 0 {
                    return Err(Status::ConstraintError);
                }
                let inner: Items = tlv::read_items(data, list);
                let endpoints: List<EndpointId, E> = match read_endpoints(data, &inner.items) {
                    Err(status) => return Err(status),
                    Ok(endpoints) => endpoints,
                };
                let policy: MulticastAddrPolicyEnum = match f.num(6) {
                    Some(v) => if v == 1 {
                        MulticastAddrPolicyEnum::PerGroup
                    } else {
                        MulticastAddrPolicyEnum::IanaAddr
                    },
                    None => MulticastAddrPolicyEnum::IanaAddr,
                };
                if endpoints.is_empty() && !self.is_sender() {
                    return Err(Status::ConstraintError);
                }
                if !endpoints.is_empty() && !self.is_listener() {
                    return Err(Status::ConstraintError);
                }
                let use_auxiliary_acl: Option<bool> = f.flag(4);
                let administrator: bool = match ctx.privilege {
                    Some(p) => p.grants(Privilege::Administer),
                    None => false,
                };
                if use_auxiliary_acl.is_some() && !administrator {
                    return Err(Status::UnsupportedAccess);
                }
                if policy == MulticastAddrPolicyEnum::PerGroup && self.feature_map & FEATURE_PER_GROUP_ADDRESS == 0 {
                    return Err(Status::ConstraintError);
                }
                let replace_endpoints: bool = match f.flag(5) {
                    Some(v) => v,
                    None => false,
                };
                Ok(
                    Joining {
                        group: GroupId(group),
                        endpoints,
                        key_set,
                        key: f.octets(3),
                        use_auxiliary_acl,
                        replace_endpoints,
                        policy,
                    },
                )
            },
            _ => Err(Status::InvalidCommand),
        }
    }
}

/// What `JoinGroup` asks for, read out of its data.
pub struct Joining<'b, const E: usize> {
    /// The group.
    pub group: GroupId,
    /// The endpoints.
    pub endpoints: List<EndpointId, E>,
    /// The key set.
    pub key_set: KeySetId,
    /// A key for a new key set.
    pub key: Option<&'b [u8]>,
    /// Whether access entries are to be made.
    pub use_auxiliary_acl: Option<bool>,
    /// Whether the endpoints replace those that are there.
    pub replace_endpoints: bool,
    /// Which multicast address to use.
    pub policy: MulticastAddrPolicyEnum,
}

impl<'b, const E: usize> View for Joining<'b, E> {
    type V = Join;

    open spec fn view(&self) -> Join {
        Join {
            group: self.group,
            endpoints: self.endpoints@,
            key_set: self.key_set,
            key: im::octets(self.key),
            use_auxiliary_acl: self.use_auxiliary_acl,
            replace_endpoints: self.replace_endpoints,
            policy: self.policy,
        }
    }
}

fn holds<const E: usize>(list: &List<EndpointId, E>, endpoint: EndpointId) -> (r: bool)
    ensures
        r == (bounded::first(list@, same(endpoint)) is Some),
{
    list.position(
        |e: &EndpointId| -> (b: bool)
            ensures
                b == (*e == endpoint)
            { *e == endpoint },
        Ghost(same(endpoint)),
    ).is_some()
}

fn merge<const E: usize>(list: &mut List<EndpointId, E>, more: &[EndpointId]) -> (fitted: bool)
    ensures
        (final(list)@, fitted) == merged(old(list)@, more@, more@.len() as int, E as nat),
{
    let mut i: usize = 0;
    while i < more.len()
        invariant
            i <= more@.len(),
            merged(old(list)@, more@, i as int, E as nat) == (list@, true),
        decreases more.len() - i,
    {
        let endpoint: EndpointId = more[i];
        if !holds(list, endpoint) {
            if !list.push(endpoint) {
                proof {
                    lemma_merged_stuck(old(list)@, more@, i + 1, more@.len() as int, E as nat);
                }
                return false;
            }
        }
        i = i + 1;
    }
    true
}

fn part<const E: usize>(data: &[u8], items: &Vec<Element>, have: &List<EndpointId, E>) -> (r: (
    List<EndpointId, E>,
    List<EndpointId, E>,
))
    requires
        forall|i: int| 0 <= i < items@.len() ==> tlv::inside(data@, #[trigger] items@[i]),
    ensures
        (r.0@, r.1@) == parted(data@, items@, items@.len() as int, have@, E as nat),
{
    let mut stay: List<EndpointId, E> = have.copy();
    let mut left: List<EndpointId, E> = List::new();
    let mut i: usize = 0;
    while i < items.len()
        invariant
            i <= items@.len(),
            forall|i: int| 0 <= i < items@.len() ==> tlv::inside(data@, #[trigger] items@[i]),
            parted(data@, items@, i as int, have@, E as nat) == (stay@, left@),
        decreases items.len() - i,
    {
        if let Ok(endpoint) = <u16 as FromTlv>::from_tlv(data, &items[i]) {
            if holds(&stay, endpoint) {
                stay.retain(
                    |e: &EndpointId| -> (b: bool)
                        ensures
                            b == (*e != endpoint)
                        { *e != endpoint },
                    Ghost(different(endpoint)),
                );
                let _ = left.push(endpoint);
            }
        }
        i = i + 1;
    }
    (stay, left)
}

fn read_endpoints<const E: usize>(data: &[u8], items: &Vec<Element>) -> (r: Result<List<EndpointId, E>, Status>)
    requires
        forall|i: int| 0 <= i < items@.len() ==> tlv::inside(data@, #[trigger] items@[i]),
    ensures
        match r {
            Ok(list) => joined_endpoints(data@, items@, items@.len() as int, E as nat) == Ok::<Seq<EndpointId>, Status>(
                list@,
            ),
            Err(status) => joined_endpoints(data@, items@, items@.len() as int, E as nat) == Err::<
                Seq<EndpointId>,
                Status,
            >(status),
        },
{
    let mut list: List<EndpointId, E> = List::new();
    let mut i: usize = 0;
    while i < items.len()
        invariant
            i <= items@.len(),
            forall|i: int| 0 <= i < items@.len() ==> tlv::inside(data@, #[trigger] items@[i]),
            joined_endpoints(data@, items@, i as int, E as nat) == Ok::<Seq<EndpointId>, Status>(list@),
        decreases items.len() - i,
    {
        let ghost n = items@.len() as int;
        match <u16 as FromTlv>::from_tlv(data, &items[i]) {
            Err(_) => {
                proof {
                    lemma_joined_err(data@, items@, i + 1, n, E as nat);
                }
                return Err(Status::InvalidCommand);
            },
            Ok(endpoint) => {
                if endpoint == 0 {
                    proof {
                        lemma_joined_err(data@, items@, i + 1, n, E as nat);
                    }
                    return Err(Status::UnsupportedEndpoint);
                }
                if !holds(&list, endpoint) {
                    if list.len() >= MAX_JOIN_ENDPOINTS {
                        proof {
                            lemma_joined_err(data@, items@, i + 1, n, E as nat);
                        }
                        return Err(Status::ConstraintError);
                    }
                    if !list.push(endpoint) {
                        proof {
                            lemma_joined_err(data@, items@, i + 1, n, E as nat);
                        }
                        return Err(Status::ResourceExhausted);
                    }
                }
            },
        }
        i = i + 1;
    }
    Ok(list)
}

fn remaining_of(map: &[MapEntry], fabric: FabricIndex, group: GroupId) -> (remaining: Vec<(GroupId, KeySetId)>)
    ensures
        remaining@ == pairs_of(map@.filter(other_groups(fabric, group))),
{
    let ghost f = |e: MapEntry| (e.group, e.key_set);
    let ghost p = other_groups(fabric, group);
    let mut remaining: Vec<(GroupId, KeySetId)> = Vec::new();
    let mut i: usize = 0;
    proof {
        reveal(Seq::filter);
        assert(map@.take(0) =~= Seq::<MapEntry>::empty());
        assert(remaining@ =~= map@.take(0).filter(p).map_values(f));
    }
    while i < map.len()
        invariant
            i <= map@.len(),
            p == other_groups(fabric, group),
            f == (|e: MapEntry| (e.group, e.key_set)),
            remaining@ == map@.take(i as int).filter(p).map_values(f),
        decreases map.len() - i,
    {
        let ghost before = map@.take(i as int).filter(p);
        proof {
            bounded::lemma_filter_take(map@, i as int, p);
        }
        let e: MapEntry = map[i];
        if e.fabric.0 == fabric.0 && e.group.0 != group.0 {
            remaining.push((e.group, e.key_set));
            proof {
                assert(remaining@ =~= before.push(e).map_values(f));
            }
        }
        i = i + 1;
    }
    proof {
        assert(map@.take(i as int) =~= map@);
    }
    remaining
}

fn put_endpoints(out: &mut Vec<u8>, endpoints: &[EndpointId])
    ensures
        final(out)@ == old(out)@ + tlv::concat(endpoints@, endpoint_bytes()),
{
    let mut i: usize = 0;
    proof {
        assert(endpoints@.take(0) =~= Seq::<EndpointId>::empty());
        assert(out@ =~= old(out)@ + tlv::concat(endpoints@.take(0), endpoint_bytes()));
    }
    while i < endpoints.len()
        invariant
            i <= endpoints@.len(),
            out@ == old(out)@ + tlv::concat(endpoints@.take(i as int), endpoint_bytes()),
        decreases endpoints.len() - i,
    {
        let ghost before = out@;
        tlv::put_unsigned(out, Tag::Anonymous, endpoints[i] as u64);
        proof {
            tlv::lemma_concat_take(endpoints@, i as int, endpoint_bytes());
            assert(out@ =~= old(out)@ + tlv::concat(endpoints@.take(i + 1), endpoint_bytes()));
        }
        i = i + 1;
    }
    proof {
        assert(endpoints@.take(i as int) =~= endpoints@);
    }
}

fn encode_left(group: GroupId, left: &[EndpointId], tag: Tag) -> (out: Vec<u8>)
    ensures
        out@ == leave_response(group, left@, tag),
{
    let mut items: Vec<u8> = Vec::new();
    put_endpoints(&mut items, left);
    let mut body: Vec<u8> = Vec::new();
    tlv::put_unsigned(&mut body, Tag::Context(0), group.0 as u64);
    tlv::put_array(&mut body, Tag::Context(1), &items);
    let mut out: Vec<u8> = Vec::new();
    tlv::put_structure(&mut out, tag, &body);
    proof {
        assert(items@ =~= tlv::concat(left@, endpoint_bytes()));
        assert(body@ =~= tlv::unsigned_bytes(Tag::Context(0), group.0 as u64) + tlv::array_bytes(
            Tag::Context(1),
            items@,
        ));
        assert(out@ =~= leave_response(group, left@, tag));
    }
    out
}

/// How many groups have a multicast address of their own, among the first `n`.
pub open spec fn own_addresses(members: Seq<MembershipModel>, n: int) -> nat
    decreases n,
{
    if n <= 0 {
        0
    } else {
        own_addresses(members, n - 1) + (if members[n - 1].policy is PerGroup { 1nat } else { 0 })
    }
}

/// Whether one of the first `n` groups uses the address that such groups share.
pub open spec fn shares_address(members: Seq<MembershipModel>, n: int) -> bool
    decreases n,
{
    n > 0 && (members[n - 1].policy is IanaAddr || shares_address(members, n - 1))
}

/// How many multicast addresses are in use: one for all groups that share one, and one more for
/// each that has its own.
pub open spec fn used_addresses(members: Seq<MembershipModel>) -> nat {
    own_addresses(members, members.len() as int) + (if shares_address(members, members.len() as int) { 1nat } else { 0 })
}

/// One group as it is read; what only a listener has is left out for others.
pub open spec fn member_bytes(m: MembershipModel, listener: bool) -> Seq<u8> {
    tlv::structure_bytes(
        Tag::Anonymous,
        tlv::unsigned_bytes(Tag::Context(0), m.group.0 as u64) + (if listener {
            tlv::array_bytes(Tag::Context(1), tlv::concat(m.endpoints, endpoint_bytes()))
        } else {
            Seq::empty()
        }) + tlv::unsigned_bytes(Tag::Context(2), m.key_set as u64) + (if listener {
            tlv::bool_bytes(Tag::Context(3), m.has_auxiliary_acl)
        } else {
            Seq::empty()
        }) + tlv::unsigned_bytes(Tag::Context(4), policy_value(m.policy) as u64) + tlv::unsigned_bytes(
            Tag::Context(FABRIC_INDEX_FIELD),
            m.fabric.0 as u64,
        ),
    )
}

/// The groups among the first `n` that a read gives.
pub open spec fn member_items(members: Seq<MembershipModel>, ctx: InteractionContext, listener: bool, n: int) -> Seq<u8>
    decreases n,
{
    if n <= 0 {
        Seq::empty()
    } else {
        member_items(members, ctx, listener, n - 1) + (if ctx.sees(members[n - 1].fabric) {
            member_bytes(members[n - 1], listener)
        } else {
            Seq::empty()
        })
    }
}

fn put_member<const E: usize>(out: &mut Vec<u8>, m: &Membership<E>, listener: bool)
    ensures
        final(out)@ == old(out)@ + member_bytes(m@, listener),
{
    let mut body: Vec<u8> = Vec::new();
    tlv::put_unsigned(&mut body, Tag::Context(0), m.group.0 as u64);
    let ghost endpoints = if listener {
        tlv::array_bytes(Tag::Context(1), tlv::concat(m@.endpoints, endpoint_bytes()))
    } else {
        Seq::empty()
    };
    let ghost acl = if listener {
        tlv::bool_bytes(Tag::Context(3), m.has_auxiliary_acl)
    } else {
        Seq::empty()
    };
    if listener {
        let mut items: Vec<u8> = Vec::new();
        put_endpoints(&mut items, m.endpoints.as_slice());
        proof {
            assert(items@ =~= tlv::concat(m@.endpoints, endpoint_bytes()));
        }
        tlv::put_array(&mut body, Tag::Context(1), &items);
    }
    tlv::put_unsigned(&mut body, Tag::Context(2), m.key_set as u64);
    if listener {
        tlv::put_bool(&mut body, Tag::Context(3), m.has_auxiliary_acl);
    }
    tlv::put_unsigned(&mut body, Tag::Context(4), m.policy.value() as u64);
    tlv::put_unsigned(&mut body, Tag::Context(FABRIC_INDEX_FIELD), m.fabric_index.0 as u64);
    proof {
        assert(body@ =~= tlv::unsigned_bytes(Tag::Context(0), m.group.0 as u64) + endpoints + tlv::unsigned_bytes(
            Tag::Context(2),
            m.key_set as u64,
        ) + acl + tlv::unsigned_bytes(Tag::Context(4), policy_value(m.policy) as u64) + tlv::unsigned_bytes(
            Tag::Context(FABRIC_INDEX_FIELD),
            m.fabric_index.0 as u64,
        ));
    }
    tlv::put_structure(out, Tag::Anonymous, &body);
}

impl<const M: usize, const E: usize, const K: usize, const G: usize> Groupcast<M, E, K, G> {
    fn count_addresses(&self) -> (n: u64)
        ensures
            n == used_addresses(self.memberships.models()),
    {
        let items: &[Membership<E>] = self.memberships.as_slice();
        let ghost models = self.memberships.models();
        let mut own: u64 = 0;
        let mut shared: bool = false;
        let mut i: usize = 0;
        while i < items.len()
            invariant
                i <= items@.len() == models.len(),
                models == bounded::models(items@),
                own <= i,
                own == own_addresses(models, i as int),
                shared == shares_address(models, i as int),
            decreases items.len() - i,
        {
            proof {
                assert(models[i as int] == items@[i as int]@);
            }
            match items[i].policy {
                MulticastAddrPolicyEnum::PerGroup => {
                    own = own + 1;
                },
                MulticastAddrPolicyEnum::IanaAddr => {
                    shared = true;
                },
            }
            i = i + 1;
        }
        proof {
            lemma_addresses(models, models.len() as int);
        }
        if shared {
            own + 1
        } else {
            own
        }
    }

    fn encode_members(&self, ctx: &InteractionContext, tag: Tag) -> (out: Vec<u8>)
        ensures
            out@ == tlv::array_bytes(
                tag,
                member_items(
                    self.memberships.models(),
                    *ctx,
                    self.feature_map & FEATURE_LISTENER != 0,
                    self.memberships.models().len() as int,
                ),
            ),
    {
        let items: &[Membership<E>] = self.memberships.as_slice();
        let ghost models = self.memberships.models();
        let listener: bool = self.is_listener();
        let mut body: Vec<u8> = Vec::new();
        let mut i: usize = 0;
        while i < items.len()
            invariant
                i <= items@.len() == models.len(),
                models == bounded::models(items@),
                body@ == member_items(models, *ctx, listener, i as int),
            decreases items.len() - i,
        {
            proof {
                assert(models[i as int] == items@[i as int]@);
            }
            if ctx.visible(items[i].fabric_index) {
                put_member(&mut body, &items[i], listener);
            } else {
                proof {
                    assert(body@ + Seq::<u8>::empty() =~= body@);
                }
            }
            i = i + 1;
        }
        let mut out: Vec<u8> = Vec::new();
        tlv::put_array(&mut out, tag, &body);
        proof {
            assert(out@ =~= tlv::array_bytes(tag, body@));
        }
        out
    }
}

/// There are no more addresses of their own than groups, and one fewer where one group shares.
proof fn lemma_addresses(members: Seq<MembershipModel>, n: int)
    requires
        0 <= n <= members.len(),
    ensures
        own_addresses(members, n) + (if shares_address(members, n) { 1nat } else { 0 }) <= n,
    decreases n,
{
    if n > 0 {
        lemma_addresses(members, n - 1);
    }
}

/// The cluster's definition.
pub open spec fn defined() -> DefinitionModel {
    DefinitionModel {
        id: ID,
        revision: REVISION,
        features: 0x07,
        attributes: seq![
            conformance::reads(MEMBERSHIP, Conformance::Optional),
            conformance::reads(MAX_MEMBERSHIP_COUNT, Conformance::Optional),
            conformance::reads(MAX_MCAST_ADDR_COUNT, Conformance::Optional),
            conformance::reads(USED_MCAST_ADDR_COUNT, Conformance::Optional),
            conformance::reads(FABRIC_UNDER_TEST, Conformance::Optional),
        ],
        commands: seq![
            conformance::invokes_with(JOIN_GROUP, Privilege::Manage, dm::scoped_access(), None, Conformance::Optional),
            conformance::invokes_with(
                LEAVE_GROUP,
                Privilege::Manage,
                dm::scoped_access(),
                Some(LEAVE_GROUP_RESPONSE),
                Conformance::Optional,
            ),
            conformance::invokes_with(UPDATE_GROUP_KEY, Privilege::Manage, dm::scoped_access(), None, Conformance::Optional),
            conformance::invokes_with(
                CONFIGURE_AUXILIARY_ACL,
                Privilege::Administer,
                dm::scoped_access(),
                None,
                Conformance::OptionalWith(FEATURE_LISTENER),
            ),
        ],
        generated: seq![
            (LEAVE_GROUP_RESPONSE, Conformance::Optional),
        ],
        events: Seq::empty(),
    }
}

/// The cluster's definition.
pub fn definition() -> (d: Definition)
    ensures
        d@ == defined(),
{
    let d: Definition = Definition {
        id: ID,
        revision: REVISION,
        features: 0x07,
        attributes: vec![
            conformance::readable(MEMBERSHIP, Conformance::Optional),
            conformance::readable(MAX_MEMBERSHIP_COUNT, Conformance::Optional),
            conformance::readable(MAX_MCAST_ADDR_COUNT, Conformance::Optional),
            conformance::readable(USED_MCAST_ADDR_COUNT, Conformance::Optional),
            conformance::readable(FABRIC_UNDER_TEST, Conformance::Optional),
        ],
        commands: vec![
            conformance::invocable_with(
                JOIN_GROUP,
                Privilege::Manage,
                AccessQualities::fabric_scoped(),
                None,
                Conformance::Optional,
            ),
            conformance::invocable_with(
                LEAVE_GROUP,
                Privilege::Manage,
                AccessQualities::fabric_scoped(),
                Some(LEAVE_GROUP_RESPONSE),
                Conformance::Optional,
            ),
            conformance::invocable_with(
                UPDATE_GROUP_KEY,
                Privilege::Manage,
                AccessQualities::fabric_scoped(),
                None,
                Conformance::Optional,
            ),
            conformance::invocable_with(
                CONFIGURE_AUXILIARY_ACL,
                Privilege::Administer,
                AccessQualities::fabric_scoped(),
                None,
                Conformance::OptionalWith(FEATURE_LISTENER),
            ),
        ],
        generated: vec![
            (LEAVE_GROUP_RESPONSE, Conformance::Optional),
        ],
        events: Vec::new(),
    };
    proof {
        assert(d@.attributes =~= defined().attributes);
        assert(d@.commands =~= defined().commands);
        assert(d@.generated =~= defined().generated);
    }
    d
}

/// Everything that the cluster serves: all of it is provisional, and so the product's choice.
pub fn all_provisional() -> (o: Optional)
    ensures
        o@ == (OptionalModel {
            attributes: seq![MEMBERSHIP, MAX_MEMBERSHIP_COUNT, MAX_MCAST_ADDR_COUNT, USED_MCAST_ADDR_COUNT, FABRIC_UNDER_TEST],
            commands: seq![JOIN_GROUP, LEAVE_GROUP, LEAVE_GROUP_RESPONSE, UPDATE_GROUP_KEY, CONFIGURE_AUXILIARY_ACL],
            events: Seq::empty(),
        }),
{
    let o: Optional = Optional {
        attributes: vec![MEMBERSHIP, MAX_MEMBERSHIP_COUNT, MAX_MCAST_ADDR_COUNT, USED_MCAST_ADDR_COUNT, FABRIC_UNDER_TEST],
        commands: vec![JOIN_GROUP, LEAVE_GROUP, LEAVE_GROUP_RESPONSE, UPDATE_GROUP_KEY, CONFIGURE_AUXILIARY_ACL],
        events: Vec::new(),
    };
    proof {
        assert(o@.attributes =~= seq![MEMBERSHIP, MAX_MEMBERSHIP_COUNT, MAX_MCAST_ADDR_COUNT, USED_MCAST_ADDR_COUNT, FABRIC_UNDER_TEST]);
        assert(o@.commands =~= seq![JOIN_GROUP, LEAVE_GROUP, LEAVE_GROUP_RESPONSE, UPDATE_GROUP_KEY, CONFIGURE_AUXILIARY_ACL]);
    }
    o
}

impl<const M: usize, const E: usize, const K: usize, const G: usize> Cluster for Groupcast<M, E, K, G> {
    const ID: ClusterId = ID;
}

impl<const M: usize, const E: usize, const K: usize, const G: usize> ClusterHandler for Groupcast<M, E, K, G> {
    open spec fn answers(&self, resolved: Resolved, ctx: InteractionContext, tag: Tag, a: ReadAnswer) -> bool {
        a == if resolved.attribute == MAX_MEMBERSHIP_COUNT {
            Ok(tlv::unsigned_bytes(tag, self.max_membership as u64))
        } else if resolved.attribute == MAX_MCAST_ADDR_COUNT {
            Ok(tlv::unsigned_bytes(tag, self.max_addresses as u64))
        } else if resolved.attribute == USED_MCAST_ADDR_COUNT {
            Ok(tlv::unsigned_bytes(tag, used_addresses(self.memberships.models()) as u64))
        } else if resolved.attribute == FABRIC_UNDER_TEST {
            Ok(tlv::unsigned_bytes(tag, self.fabric_under_test.0 as u64))
        } else if resolved.attribute == MEMBERSHIP {
            Ok(
                tlv::array_bytes(
                    tag,
                    member_items(
                        self.memberships.models(),
                        ctx,
                        self.feature_map & FEATURE_LISTENER != 0,
                        self.memberships.models().len() as int,
                    ),
                ),
            )
        } else {
            Err::<Seq<u8>, Status>(Status::UnsupportedAttribute)
        }
    }

    open spec fn writes(
        before: &Self,
        after: &Self,
        resolved: Resolved,
        data: Seq<u8>,
        op: WriteOp,
        ctx: InteractionContext,
        r: Result<(), Status>,
    ) -> bool {
        *after == *before && r == Err::<(), Status>(Status::UnsupportedWrite)
    }

    open spec fn invokes(
        before: &Self,
        after: &Self,
        resolved: ResolvedCommand,
        fields: Option<Seq<u8>>,
        ctx: InteractionContext,
        tag: Tag,
        a: InvokeAnswer,
    ) -> bool {
        &&& (after.state(), a) == commanded(before.state(), before.setup(), resolved.command, fields, ctx, tag)
        &&& after.same_setup(before)
    }

    open spec fn outlives(before: &Self, after: &Self, event: Lifecycle) -> bool {
        let Lifecycle::FabricRemoved(fabric) = event;
        &&& after.memberships.models() == before.memberships.models().filter(not_of_fabric(fabric))
        &&& after.keys@ == before.keys@
        &&& after.same_setup(before)
    }

    open spec fn unfit(&self, resolved: ResolvedCommand) -> Status {
        Status::Failure
    }

    fn answer(&self, resolved: &Resolved, ctx: &InteractionContext, tag: Tag) -> (a: Result<Vec<u8>, Status>) {
        let v: u64 = match resolved.attribute {
            MAX_MEMBERSHIP_COUNT => self.max_membership as u64,
            MAX_MCAST_ADDR_COUNT => self.max_addresses as u64,
            USED_MCAST_ADDR_COUNT => self.count_addresses(),
            FABRIC_UNDER_TEST => self.fabric_under_test.0 as u64,
            MEMBERSHIP => return Ok(self.encode_members(ctx, tag)),
            _ => return Err(Status::UnsupportedAttribute),
        };
        let mut out: Vec<u8> = Vec::new();
        tlv::put_unsigned(&mut out, tag, v);
        proof {
            assert(out@ =~= tlv::unsigned_bytes(tag, v));
        }
        Ok(out)
    }

    fn write(&mut self, resolved: &Resolved, data: &[u8], op: WriteOp, ctx: &InteractionContext) -> (r: Result<(), Status>) {
        Err(Status::UnsupportedWrite)
    }

    fn perform(
        &mut self,
        resolved: &ResolvedCommand,
        fields: Option<&[u8]>,
        ctx: &InteractionContext,
        tag: Tag,
    ) -> (a: Result<Reply, StatusIb>) {
        let fabric: FabricIndex = match ctx.fabric() {
            None => return im::refuse(Status::UnsupportedAccess),
            Some(fabric) => fabric,
        };
        let data: &[u8] = match fields {
            None => return im::refuse(Status::InvalidCommand),
            Some(data) => data,
        };
        match resolved.command {
            JOIN_GROUP => match self.read_join(data, ctx) {
                Err(status) => im::refuse(status),
                Ok(j) => match self.apply_join(fabric, j) {
                    Err(status) => im::refuse(status),
                    Ok(_) => im::no_response(),
                },
            },
            LEAVE_GROUP => self.leave(fabric, data, tag),
            UPDATE_GROUP_KEY => self.update_key(fabric, data),
            CONFIGURE_AUXILIARY_ACL => self.configure_auxiliary_acl(fabric, data),
            _ => im::refuse(Status::UnsupportedCommand),
        }
    }

    fn on_lifecycle(&mut self, event: Lifecycle) {
        let Lifecycle::FabricRemoved(fabric) = event;
        self.remove_fabric(fabric);
    }

    fn unfit_status(&self, resolved: &ResolvedCommand) -> (s: Status) {
        Status::Failure
    }
}

/// However many groups share an address, they use one.
pub proof fn law_shared_addresses_cost_one(members: Seq<MembershipModel>)
    requires
        forall|i: int| 0 <= i < members.len() ==> (#[trigger] members[i]).policy is IanaAddr,
    ensures
        used_addresses(members) <= 1,
{
    lemma_no_own(members, members.len() as int);
}

proof fn lemma_no_own(members: Seq<MembershipModel>, n: int)
    requires
        0 <= n <= members.len(),
        forall|i: int| 0 <= i < members.len() ==> (#[trigger] members[i]).policy is IanaAddr,
    ensures
        own_addresses(members, n) == 0,
    decreases n,
{
    if n > 0 {
        lemma_no_own(members, n - 1);
        assert(members[n - 1].policy is IanaAddr);
    }
}

/// A group that was forgotten is in no list and has no entry in the map.
pub proof fn law_a_forgotten_group_is_gone(st: State, l: Limits, fabric: FabricIndex, group: GroupId)
    requires
        st.keys.map.len() <= l.groups,
        bounded::count(st.keys.map, group::entry_of_fabric(fabric)) <= l.groups_per_fabric,
    ensures
        bounded::first(forgotten(st, l, fabric, group).members, member_is(fabric, group)) is None,
        bounded::first(forgotten(st, l, fabric, group).keys.map, group::entry_is(fabric, group)) is None,
{
    let after = forgotten(st, l, fabric, group);
    bounded::lemma_filter(st.members, member_is_not(fabric, group));
    bounded::lemma_first(after.members, member_is(fabric, group));
    let kept = st.keys.map.filter(other_groups(fabric, group));
    let others = st.keys.map.filter(group::entry_not_of_fabric(fabric));
    bounded::lemma_filter(st.keys.map, other_groups(fabric, group));
    bounded::lemma_filter(st.keys.map, group::entry_not_of_fabric(fabric));
    lemma_kept_fits(st.keys.map, fabric, group);
    let map = others + group::entries_for(fabric, pairs_of(kept));
    assert(after.keys.map == map);
    bounded::lemma_first(map, group::entry_is(fabric, group));
    assert forall|i: int| 0 <= i < map.len() implies !group::entry_is(fabric, group)(#[trigger] map[i]) by {
        if i < others.len() {
            assert(map[i] == others[i]);
        } else {
            assert(map[i].group == kept[i - others.len()].group);
            assert(other_groups(fabric, group)(kept[i - others.len()]));
        }
    }
}

/// What stays of a map fits where the whole did.
proof fn lemma_kept_fits(map: Seq<MapEntry>, fabric: FabricIndex, group: GroupId)
    ensures
        map.filter(other_groups(fabric, group)).len() <= map.filter(group::entry_of_fabric(fabric)).len(),
        map.filter(other_groups(fabric, group)).len() + map.filter(group::entry_not_of_fabric(fabric)).len() <= map.len(),
    decreases map.len(),
{
    reveal(Seq::filter);
    if map.len() > 0 {
        lemma_kept_fits(map.drop_last(), fabric, group);
    }
}

/// Leaving a group of one fabric leaves every group of the others.
pub proof fn law_forgetting_stays_in_the_fabric(
    st: State,
    l: Limits,
    fabric: FabricIndex,
    group: GroupId,
    other: FabricIndex,
)
    requires
        other != fabric,
    ensures
        forgotten(st, l, fabric, group).members.filter(of_fabric(other)) == st.members.filter(of_fabric(other)),
{
    bounded::lemma_filter_filter(st.members, member_is_not(fabric, group), of_fabric(other), of_fabric(other));
}

/// A join never takes a fabric over its half of the table.
pub proof fn law_no_fabric_takes_more_than_half(st: State, s: Setup, fabric: FabricIndex, j: Join)
    requires
        bounded::count(st.members, of_fabric(fabric)) <= s.per_fabric,
    ensures
        bounded::count(joined(st, s, fabric, j).0.members, of_fabric(fabric)) <= s.per_fabric,
{
    bounded::lemma_first(st.members, member_is(fabric, j.group));
    match bounded::first(st.members, member_is(fabric, j.group)) {
        Some(i) => {
            let after = joined(st, s, fabric, j).0.members;
            assert(after =~= st.members || after =~= st.members.update(i, after[i]));
            if !(after =~= st.members) {
                bounded::lemma_count_update(st.members, i, after[i], of_fabric(fabric));
            }
        },
        None => {
            let after = joined(st, s, fabric, j).0.members;
            if after != st.members {
                bounded::lemma_filter_push(st.members, after.last(), of_fabric(fabric));
                assert(after =~= st.members.push(after.last()));
            }
        },
    }
}

/// What tells memberships apart.
pub open spec fn member_key() -> spec_fn(MembershipModel) -> (FabricIndex, GroupId) {
    |m: MembershipModel| (m.fabric, m.group)
}

/// A membership that changes in what does not tell it apart keeps the others apart from it.
proof fn lemma_same_key(members: Seq<MembershipModel>, i: int, m: MembershipModel)
    requires
        bounded::distinct(members, member_key()),
        0 <= i < members.len(),
        member_key()(m) == member_key()(members[i]),
    ensures
        bounded::distinct(members.update(i, m), member_key()),
{
    let after = members.update(i, m);
    assert forall|a: int, b: int| 0 <= a < b < after.len() implies member_key()(#[trigger] after[a]) != member_key()(
        #[trigger] after[b],
    ) by {
        assert(member_key()(members[a]) != member_key()(members[b]));
    }
}

proof fn lemma_all_forgotten_distinct(st: State, l: Limits, fabric: FabricIndex, groups: Seq<GroupId>, n: int)
    requires
        bounded::distinct(st.members, member_key()),
    ensures
        bounded::distinct(all_forgotten(st, l, fabric, groups, n).members, member_key()),
    decreases n,
{
    if n > 0 {
        lemma_all_forgotten_distinct(st, l, fabric, groups, n - 1);
        let before = all_forgotten(st, l, fabric, groups, n - 1);
        bounded::lemma_distinct_filter(before.members, member_key(), member_is_not(fabric, groups[n - 1]));
    }
}

/// Whatever is commanded, no fabric has a group twice.
pub proof fn law_no_group_is_listed_twice(
    st: State,
    s: Setup,
    command: CommandId,
    data: Option<Seq<u8>>,
    ctx: InteractionContext,
    tag: Tag,
)
    requires
        bounded::distinct(st.members, member_key()),
    ensures
        bounded::distinct(commanded(st, s, command, data, ctx, tag).0.members, member_key()),
{
    if let (Some(fabric), Some(b)) = (ctx.accessing(), data) {
        if command == JOIN_GROUP {
            if let Ok(j) = join_request(s, b, ctx) {
                lemma_join_distinct(st, s, fabric, j);
            }
        } else if command == LEAVE_GROUP {
            lemma_leave_distinct(st, s, fabric, b, tag);
        } else if command == UPDATE_GROUP_KEY {
            if let Ok(items) = fields::decode(b, update_schema()) {
                if let (Some(id), Some(key_set)) = (fields::num16(items, 0), fields::num16(items, 1)) {
                    bounded::lemma_first(st.members, member_is(fabric, GroupId(id)));
                    if let Some(i) = bounded::first(st.members, member_is(fabric, GroupId(id))) {
                        lemma_same_key(st.members, i, MembershipModel { key_set, ..st.members[i] });
                    }
                }
            }
        } else if command == CONFIGURE_AUXILIARY_ACL {
            if let Ok(items) = fields::decode(b, acl_schema()) {
                if let (Some(id), Some(wanted)) = (fields::num16(items, 0), fields::flag(items, 1)) {
                    bounded::lemma_first(st.members, member_is(fabric, GroupId(id)));
                    if let Some(i) = bounded::first(st.members, member_is(fabric, GroupId(id))) {
                        lemma_same_key(st.members, i, MembershipModel { has_auxiliary_acl: wanted, ..st.members[i] });
                    }
                }
            }
        }
    }
}

proof fn lemma_join_distinct(st: State, s: Setup, fabric: FabricIndex, j: Join)
    requires
        bounded::distinct(st.members, member_key()),
    ensures
        bounded::distinct(joined(st, s, fabric, j).0.members, member_key()),
{
    let after = joined(st, s, fabric, j).0.members;
    bounded::lemma_first(st.members, member_is(fabric, j.group));
    if after != st.members {
        match bounded::first(st.members, member_is(fabric, j.group)) {
            Some(i) => {
                assert(after =~= st.members.update(i, after[i]));
                lemma_same_key(st.members, i, after[i]);
            },
            None => {
                assert(after =~= st.members.push(after.last()));
                assert forall|i: int| 0 <= i < st.members.len() implies member_key()(#[trigger] st.members[i])
                    != member_key()(after.last()) by {
                    assert(!member_is(fabric, j.group)(st.members[i]));
                }
                bounded::lemma_distinct_push(st.members, member_key(), after.last());
            },
        }
    }
}

proof fn lemma_leave_distinct(st: State, s: Setup, fabric: FabricIndex, b: Seq<u8>, tag: Tag)
    requires
        bounded::distinct(st.members, member_key()),
    ensures
        bounded::distinct(left(st, s, fabric, b, tag).0.members, member_key()),
{
    if let Ok(items) = fields::decode(b, leave_schema()) {
        if let Some(id) = fields::num16(items, 0) {
            let group = GroupId(id);
            let groups = groups_of(st.members, fabric);
            lemma_all_forgotten_distinct(st, s.limits, fabric, groups, groups.len() as int);
            bounded::lemma_first(st.members, member_is(fabric, group));
            bounded::lemma_distinct_filter(st.members, member_key(), member_is_not(fabric, group));
            if let (Some(i), Some(list)) = (bounded::first(st.members, member_is(fabric, group)), fields::container(items, 1)) {
                let inner = tlv::scan(b, list as int).items;
                let stay = parted(b, inner, inner.len() as int, st.members[i].endpoints, s.endpoints).0;
                let m = MembershipModel { endpoints: stay, ..st.members[i] };
                lemma_same_key(st.members, i, m);
                bounded::lemma_distinct_filter(st.members.update(i, m), member_key(), member_is_not(fabric, group));
            }
        }
    }
}

/// A group that was joined is ready for use: the node is in it, its key set is there, and the map
/// says which it is.
pub proof fn law_a_joined_group_is_ready(st: State, s: Setup, fabric: FabricIndex, j: Join)
    requires
        joined(st, s, fabric, j).1 is None,
    ensures
        ({
            let after = joined(st, s, fabric, j).0;
            &&& bounded::first(after.members, member_is(fabric, j.group)) matches Some(i) && after.members[i].key_set
                == j.key_set && after.members[i].policy == j.policy
            &&& group::set_at(after.keys, fabric, j.key_set) is Some
            &&& bounded::first(after.keys.map, group::entry_is(fabric, j.group)) matches Some(k)
                && after.keys.map[k].key_set == j.key_set
        }),
{
    let after = joined(st, s, fabric, j).0;
    let keys = key_installed(st.keys, s.limits, fabric, j.key_set, j.key).0;
    if let Some(key) = j.key {
        group::law_a_written_key_set_is_read_back(st.keys, s.limits, made_set(fabric, j.key_set, key));
    }
    assert(group::set_at(keys, fabric, j.key_set) is Some);
    assert(after.keys.sets == keys.sets);
    bounded::lemma_first(st.members, member_is(fabric, j.group));
    bounded::lemma_first(after.members, member_is(fabric, j.group));
    match bounded::first(st.members, member_is(fabric, j.group)) {
        Some(i) => {
            assert forall|a: int| 0 <= a < i implies !member_is(fabric, j.group)(#[trigger] after.members[a]) by {
                assert(after.members[a] == st.members[a]);
            }
            assert(member_is(fabric, j.group)(after.members[i]));
        },
        None => {
            let n = st.members.len() as int;
            assert forall|a: int| 0 <= a < n implies !member_is(fabric, j.group)(#[trigger] after.members[a]) by {
                assert(after.members[a] == st.members[a]);
            }
            assert(member_is(fabric, j.group)(after.members[n]));
        },
    }
    group::law_a_mapped_group_is_found(keys, s.limits, fabric, j.group, j.key_set);
}

/// A join has endpoints on a node that listens and none on one that does not, a group and a key set
/// that are some, an address of its own only where the node can have one, and access entries only
/// for an administrator.
pub proof fn law_a_join_fits_the_features(s: Setup, b: Seq<u8>, ctx: InteractionContext)
    ensures
        join_request(s, b, ctx) matches Ok(j) ==> {
            &&& j.endpoints.len() > 0 ==> s.features & FEATURE_LISTENER != 0
            &&& j.endpoints.len() == 0 ==> s.features & FEATURE_SENDER != 0
            &&& j.policy is PerGroup ==> s.features & FEATURE_PER_GROUP_ADDRESS != 0
            &&& j.use_auxiliary_acl is Some ==> administers(ctx)
            &&& j.group.0 != 0 && j.key_set != 0
        },
{
}

/// The endpoints of a join are each named once, the root is not among them, and there are no more
/// than a group can have.
pub proof fn law_the_root_is_never_joined(b: Seq<u8>, items: Seq<Element>, n: int, cap: nat)
    ensures
        joined_endpoints(b, items, n, cap) matches Ok(list) ==> {
            &&& list.len() <= cap
            &&& forall|i: int| 0 <= i < list.len() ==> #[trigger] list[i] != 0
            &&& forall|i: int, j: int| 0 <= i < j < list.len() ==> #[trigger] list[i] != #[trigger] list[j]
        },
    decreases n,
{
    if n > 0 {
        law_the_root_is_never_joined(b, items, n - 1, cap);
        if let (Ok(before), Ok(endpoint)) = (
            joined_endpoints(b, items, n - 1, cap),
            <u16 as FromTlv>::of(b, items[n - 1]),
        ) {
            bounded::lemma_first(before, same(endpoint));
            if bounded::first(before, same(endpoint)) is None {
                assert forall|i: int| 0 <= i < before.len() implies #[trigger] before[i] != endpoint by {
                    assert(!same(endpoint)(before[i]));
                }
            }
        }
    }
}

/// Of the endpoints that a join names, every one joins and no other does; and a join of endpoints other than the root that are
/// no more than twenty and than a group can have is taken.
pub proof fn law_every_named_endpoint_joins(b: Seq<u8>, items: Seq<Element>, n: int, cap: nat)
    requires
        0 <= n <= items.len(),
    ensures
        joined_endpoints(b, items, n, cap) matches Ok(list) ==> {
            &&& forall|k: int| 0 <= k < n ==> (<u16 as FromTlv>::of(b, #[trigger] items[k]) matches Ok(e) && e != 0 && list.contains(e))
            &&& forall|i: int|
                0 <= i < list.len() ==> exists|k: int|
                    0 <= k < n && <u16 as FromTlv>::of(b, #[trigger] items[k]) == Ok::<u16, Status>(#[trigger] list[i])
            &&& list.len() <= n
        },
        n <= 20 && n <= cap && (forall|k: int|
            0 <= k < n ==> (<u16 as FromTlv>::of(b, #[trigger] items[k]) matches Ok(e) && e != 0))
            ==> joined_endpoints(b, items, n, cap) is Ok,
    decreases n,
{
    if n > 0 {
        law_every_named_endpoint_joins(b, items, n - 1, cap);
        if let (Ok(before), Ok(endpoint)) = (
            joined_endpoints(b, items, n - 1, cap),
            <u16 as FromTlv>::of(b, items[n - 1]),
        ) {
            bounded::lemma_first(before, same(endpoint));
            if let Ok(list) = joined_endpoints(b, items, n, cap) {
                match bounded::first(before, same(endpoint)) {
                    Some(at) => {
                        assert(same(endpoint)(before[at]));
                        assert(list.contains(endpoint));
                    },
                    None => {
                        assert(list[list.len() - 1] == endpoint);
                        assert forall|e: u16| #[trigger] before.contains(e) implies list.contains(e) by {
                            let at = choose|at: int| 0 <= at < before.len() && before[at] == e;
                            assert(list[at] == e);
                        }
                        assert forall|i: int| 0 <= i < list.len() implies exists|k: int|
                            0 <= k < n && <u16 as FromTlv>::of(b, #[trigger] items[k]) == Ok::<u16, Status>(#[trigger] list[i]) by {
                            if i < before.len() {
                                assert(list[i] == before[i]);
                            } else {
                                assert(<u16 as FromTlv>::of(b, items[n - 1]) == Ok::<u16, Status>(list[i]));
                            }
                        }
                    },
                }
            }
        }
    }
}

/// Endpoints that are added to those of a group keep those that were there in their places; every one of them is in it then, and
/// no other endpoint is; and they fit where there is room for all.
pub proof fn law_endpoints_are_merged(have: Seq<EndpointId>, more: Seq<EndpointId>, n: int, cap: nat)
    requires
        0 <= n <= more.len(),
    ensures
        ({
            let (list, fitted) = merged(have, more, n, cap);
            &&& have.is_prefix_of(list)
            &&& forall|i: int| have.len() <= i < list.len() ==> more.contains(#[trigger] list[i])
            &&& fitted ==> forall|k: int| 0 <= k < n ==> list.contains(#[trigger] more[k])
            &&& have.len() + n <= cap ==> fitted && list.len() <= have.len() + n
            &&& !fitted ==> list.len() >= cap
        }),
    decreases n,
{
    if n > 0 {
        law_endpoints_are_merged(have, more, n - 1, cap);
        let (before, fitted) = merged(have, more, n - 1, cap);
        let (list, fits) = merged(have, more, n, cap);
        bounded::lemma_first(before, same(more[n - 1]));
        if fitted {
            match bounded::first(before, same(more[n - 1])) {
                Some(at) => {
                    assert(same(more[n - 1])(before[at]));
                    assert(list[at] == more[n - 1]);
                },
                None => {
                    if before.len() < cap {
                        assert(list[list.len() - 1] == more[n - 1]);
                        assert forall|k: int| 0 <= k < n implies list.contains(#[trigger] more[k]) by {
                            if k < n - 1 {
                                let at = choose|at: int| 0 <= at < before.len() && before[at] == more[k];
                                assert(list[at] == more[k]);
                            }
                        }
                        assert(more.contains(more[n - 1]));
                    }
                },
            }
        }
    }
}

/// Whether a node has a key set of a number for a fabric.
pub open spec fn has_set(sets: Seq<KeySetModel>, fabric: FabricIndex, id: KeySetId) -> bool {
    exists|i: int| 0 <= i < sets.len() && (#[trigger] sets[i]).fabric == fabric && sets[i].id == id
}

proof fn lemma_has_set(k: KeysModel, fabric: FabricIndex, id: KeySetId)
    ensures
        (group::set_at(k, fabric, id) is Some) == has_set(k.sets, fabric, id),
{
    let p = group::set_is(fabric, id);
    bounded::lemma_first(k.sets, p);
    match bounded::first(k.sets, p) {
        Some(i) => {
            assert(p(k.sets[i]));
            assert(k.sets[i].fabric == fabric && k.sets[i].id == id);
        },
        None => {
            assert forall|i: int| 0 <= i < k.sets.len() implies !((#[trigger] k.sets[i]).fabric == fabric && k.sets[i].id == id) by {
                assert(!p(k.sets[i]));
            }
        },
    }
}

/// Whether the two lists differ in one membership of the group at most: the one that was there, in its place, or a new one at
/// the end.
pub open spec fn one_moved(was: Seq<MembershipModel>, is_now: Seq<MembershipModel>, fabric: FabricIndex, group: GroupId, i: int) -> bool {
    &&& 0 <= i < is_now.len()
    &&& is_now[i].fabric == fabric && is_now[i].group == group
    &&& if i < was.len() {
        &&& was[i].fabric == fabric && was[i].group == group
        &&& is_now == was.update(i, is_now[i])
    } else {
        &&& i == was.len()
        &&& is_now == was.push(is_now[i])
        &&& forall|j: int| 0 <= j < was.len() ==> !((#[trigger] was[j]).fabric == fabric && was[j].group == group)
    }
}

proof fn lemma_join(st: State, s: Setup, fabric: FabricIndex, j: Join) -> (i: int)
    requires
        joined(st, s, fabric, j).1 is None,
    ensures
        ({
            let after = joined(st, s, fabric, j).0;
            {
                    let m = after.members[i];
                    &&& one_moved(st.members, after.members, fabric, j.group, i)
                    &&& m.key_set == j.key_set && m.policy == j.policy
                    &&& m.has_auxiliary_acl == (match j.use_auxiliary_acl {
                        Some(v) => v,
                        None => i < st.members.len() && st.members[i].has_auxiliary_acl,
                    })
                    &&& i == st.members.len() ==> m.endpoints == j.endpoints
                    &&& i < st.members.len() ==> m.endpoints == merged(
                        if j.replace_endpoints { Seq::empty() } else { st.members[i].endpoints },
                        j.endpoints,
                        j.endpoints.len() as int,
                        s.endpoints,
                    ).0 && merged(
                        if j.replace_endpoints { Seq::empty() } else { st.members[i].endpoints },
                        j.endpoints,
                        j.endpoints.len() as int,
                        s.endpoints,
                    ).1
                }
        }),
{
    let after = joined(st, s, fabric, j).0;
    let p = member_is(fabric, j.group);
    bounded::lemma_first(st.members, p);
    match bounded::first(st.members, p) {
        Some(i) => {
            assert(p(st.members[i]));
            assert(after.members =~= st.members.update(i, after.members[i]));
            i
        },
        None => {
            assert forall|i: int| 0 <= i < st.members.len() implies !((#[trigger] st.members[i]).fabric == fabric
                && st.members[i].group == j.group) by {
                assert(!p(st.members[i]));
            }
            assert(after.members =~= st.members.push(after.members[st.members.len() as int]));
            st.members.len() as int
        },
    }
}

/// `JoinGroup` that is carried out makes the node a member of that group of the accessing fabric, with the endpoints that it
/// names, beside those that are there or in their place as it asks, under the key set, the address and the access entries that
/// it asks for; no other membership changes. A key that it brings makes a new key set of that one key, and without a key the
/// key set has to be there; and the map says which key set it is.
pub proof fn law_a_join_is_carried_out<const M: usize, const E: usize, const K: usize, const G: usize>(
    before: Groupcast<M, E, K, G>,
    after: Groupcast<M, E, K, G>,
    resolved: ResolvedCommand,
    b: Seq<u8>,
    items: Seq<Element>,
    group: u16,
    list: usize,
    key_set: u16,
    endpoints: Seq<EndpointId>,
    fabric: FabricIndex,
    ctx: InteractionContext,
    tag: Tag,
    a: InvokeAnswer,
)
    requires
        Groupcast::invokes(&before, &after, resolved, Some(b), ctx, tag, a),
        resolved.command == 0x00,
        ctx.fabric_index == Some(fabric),
        fabric.0 != 0,
        fields::decode(
            b,
            seq![
                Field(0, Kind::U16, Need::Required),
                Field(1, Kind::Array, Need::Required),
                Field(2, Kind::U16, Need::Required),
                Field(3, Kind::Octets, Need::Optional),
                Field(4, Kind::Bool, Need::Optional),
                Field(5, Kind::Bool, Need::Optional),
                Field(6, Kind::Enum(1), Need::Optional),
            ],
        ) == Ok::<Seq<Element>, Status>(items),
        fields::num16(items, 0) == Some(group),
        fields::container(items, 1) == Some(list),
        fields::num16(items, 2) == Some(key_set),
        joined_endpoints(b, tlv::scan(b, list as int).items, tlv::scan(b, list as int).items.len() as int, E as nat) == Ok::<
            Seq<EndpointId>,
            Status,
        >(endpoints),
    ensures
        ({
            let key = fields::octets(b, items, 3);
            let there = has_set(before.keys@.sets, fabric, key_set);
            let alone = fields::num(items, 6) == Some(1u64);
            let unchanged = after.state() == before.state();
            if group == 0 || key_set == 0 || (endpoints.len() == 0 && before.feature_map & 2 == 0) || (endpoints.len() > 0
                && before.feature_map & 1 == 0) {
                a == im::refused(Status::ConstraintError) && unchanged
            } else if fields::flag(items, 4) is Some && !(ctx.privilege matches Some(p) && p is Administer) {
                a == im::refused(Status::UnsupportedAccess) && unchanged
            } else if alone && before.feature_map & 4 == 0 {
                a == im::refused(Status::ConstraintError) && unchanged
            } else if key is Some && key->Some_0.len() != 16 {
                a == im::refused(Status::ConstraintError) && unchanged
            } else if key is Some && there {
                a == im::refused(Status::AlreadyExists) && unchanged
            } else if key is None && !there {
                a == im::refused(Status::NotFound) && unchanged
            } else {
                &&& a == im::done() || a == im::refused(Status::ResourceExhausted)
                &&& key is None ==> after.keys@.sets == before.keys@.sets
                &&& key is Some && a == im::done() ==> after.keys@.sets == before.keys@.sets.push(
                    KeySetModel {
                        fabric,
                        id: key_set,
                        policy: GroupKeySecurityPolicy::TrustFirst,
                        epochs: seq![EpochModel { key: key->Some_0, start: 1 }],
                    },
                )
            }
        }),
        a == im::done() ==> exists|i: int|
            {
                let m = after.memberships.models()[i];
                let was = before.memberships.models();
                &&& #[trigger] one_moved(before.memberships.models(), after.memberships.models(), fabric, GroupId(group), i)
                &&& m.key_set == key_set
                &&& m.policy is PerGroup == (fields::num(items, 6) == Some(1u64))
                &&& m.has_auxiliary_acl == (match fields::flag(items, 4) {
                    Some(v) => v,
                    None => i < was.len() && was[i].has_auxiliary_acl,
                })
                &&& forall|k: int| 0 <= k < endpoints.len() ==> m.endpoints.contains(#[trigger] endpoints[k])
                &&& i < was.len() && fields::flag(items, 5) != Some(true) ==> was[i].endpoints.is_prefix_of(m.endpoints)
                    && forall|e: int| was[i].endpoints.len() <= e < m.endpoints.len() ==> endpoints.contains(#[trigger] m.endpoints[e])
                &&& i == was.len() || fields::flag(items, 5) == Some(true) ==> forall|e: int|
                    0 <= e < m.endpoints.len() ==> endpoints.contains(#[trigger] m.endpoints[e])
            },
        a == im::done() ==> exists|k: int|
            0 <= k < after.keys@.map.len() && #[trigger] after.keys@.map[k] == (MapEntry { fabric, group: GroupId(group), key_set }),
{
    assert(join_schema() =~= seq![
        Field(0, Kind::U16, Need::Required),
        Field(1, Kind::Array, Need::Required),
        Field(2, Kind::U16, Need::Required),
        Field(3, Kind::Octets, Need::Optional),
        Field(4, Kind::Bool, Need::Optional),
        Field(5, Kind::Bool, Need::Optional),
        Field(6, Kind::Enum(1), Need::Optional),
    ]);
    let st = before.state();
    let s = before.setup();
    lemma_has_set(before.keys@, fabric, key_set);
    if let Ok(j) = join_request(s, b, ctx) {
        let (keys, why) = key_installed(st.keys, s.limits, fabric, j.key_set, j.key);
        group::law_mapping_touches_one_group(keys, s.limits, fabric, j.group, j.key_set);
        if let Some(key) = j.key {
            group::law_writing_touches_one_key_set(st.keys, s.limits, made_set(fabric, j.key_set, key));
        }
        if joined(st, s, fabric, j).1 is None {
            let i = lemma_join(st, s, fabric, j);
            group::law_a_mapped_group_is_found(keys, s.limits, fabric, j.group, j.key_set);
            bounded::lemma_first(after.keys@.map, group::entry_is(fabric, j.group));
            assert(one_moved(before.memberships.models(), after.memberships.models(), fabric, GroupId(group), i));
            if i < st.members.len() {
                let have = if j.replace_endpoints { Seq::empty() } else { st.members[i].endpoints };
                law_endpoints_are_merged(have, j.endpoints, j.endpoints.len() as int, s.endpoints);
            }
            let m = after.memberships.models()[i];
            assert forall|k: int| 0 <= k < endpoints.len() implies m.endpoints.contains(#[trigger] endpoints[k]) by {
                if i == st.members.len() {
                    assert(m.endpoints[k] == endpoints[k]);
                }
            }
        }
    }
}

/// What leaving is told: an endpoint stays exactly where the list does not name it, and every endpoint that left is told of
/// where there is room.
pub proof fn law_only_named_endpoints_leave(b: Seq<u8>, items: Seq<Element>, n: int, have: Seq<EndpointId>, cap: nat)
    requires
        0 <= n <= items.len(),
    ensures
        ({
            let (stay, gone) = parted(b, items, n, have, cap);
            let named = |e: EndpointId|
                exists|k: int| 0 <= k < n && <u16 as FromTlv>::of(b, #[trigger] items[k]) == Ok::<u16, Status>(e);
            &&& forall|e: EndpointId| #[trigger] stay.contains(e) == (have.contains(e) && !named(e))
            &&& forall|e: EndpointId| #[trigger] gone.contains(e) ==> have.contains(e) && named(e)
            &&& n <= cap ==> gone.len() <= n && forall|e: EndpointId| have.contains(e) && named(e) ==> #[trigger] gone.contains(e)
        }),
    decreases n,
{
    if n <= 0 {
        let (stay, gone) = parted(b, items, n, have, cap);
        assert(stay == have);
    } else {
        law_only_named_endpoints_leave(b, items, n - 1, have, cap);
        let (stay, gone) = parted(b, items, n - 1, have, cap);
        let (stays, left) = parted(b, items, n, have, cap);
        if let Ok(endpoint) = <u16 as FromTlv>::of(b, items[n - 1]) {
            bounded::lemma_first(stay, same(endpoint));
            match bounded::first(stay, same(endpoint)) {
                Some(at) => {
                    assert(same(endpoint)(stay[at]));
                    assert(stay.contains(endpoint));
                    bounded::lemma_filter(stay, different(endpoint));
                    assert forall|e: EndpointId| #[trigger] left.contains(e) implies gone.contains(e) || e == endpoint by {
                        let i = choose|i: int| 0 <= i < left.len() && left[i] == e;
                        if i < gone.len() {
                            assert(gone[i] == e);
                        }
                    }
                    assert forall|e: EndpointId| gone.contains(e) implies #[trigger] left.contains(e) by {
                        let i = choose|i: int| 0 <= i < gone.len() && gone[i] == e;
                        assert(left[i] == e);
                    }
                    if gone.len() < cap {
                        assert(left[left.len() - 1] == endpoint);
                    }
                },
                None => {
                    assert forall|i: int| 0 <= i < stay.len() implies stay[i] != endpoint by {
                        assert(!same(endpoint)(stay[i]));
                    }
                    assert(!stay.contains(endpoint));
                },
            }
        }
    }
}

/// A group that is forgotten takes along its key set exactly where no other group of the fabric uses it, and of the map its own
/// entry alone.
pub proof fn law_keys_go_with_their_last_user(st: State, l: Limits, fabric: FabricIndex, group: GroupId, i: int)
    requires
        0 <= i < st.members.len(),
        st.members[i].fabric == fabric,
        st.members[i].group == group,
        st.members[i].key_set != 0,
        bounded::distinct(st.members, member_key()),
        st.keys.map.len() <= l.groups,
        st.keys.map.filter(|e: MapEntry| e.fabric == fabric).len() <= l.groups_per_fabric,
    ensures
        ({
            let after = forgotten(st, l, fabric, group);
            let id = st.members[i].key_set;
            let used = exists|k: int|
                0 <= k < st.members.len() && k != i && (#[trigger] st.members[k]).fabric == fabric && st.members[k].key_set == id;
            &&& after.members == st.members.filter(|m: MembershipModel| !(m.fabric == fabric && m.group == group))
            &&& used || !has_set(st.keys.sets, fabric, id) ==> after.keys.sets == st.keys.sets
            &&& !used && has_set(st.keys.sets, fabric, id) ==> exists|k: int|
                0 <= k < st.keys.sets.len() && st.keys.sets[k].fabric == fabric && st.keys.sets[k].id == id && after.keys.sets
                    == #[trigger] st.keys.sets.remove(k)
            &&& forall|e: MapEntry| #[trigger] after.keys.map.contains(e) == (st.keys.map.contains(e) && !(e.fabric == fabric && e.group
                == group))
        }),
{
    let after = forgotten(st, l, fabric, group);
    let p = member_is(fabric, group);
    let id = st.members[i].key_set;
    bounded::lemma_first(st.members, p);
    assert(p(st.members[i]));
    let at = bounded::first(st.members, p)->Some_0;
    assert(p(st.members[at]));
    assert(member_key()(st.members[at]) == member_key()(st.members[i]));
    assert(at == i);
    assert(member_is_not(fabric, group) =~= |m: MembershipModel| !(m.fabric == fabric && m.group == group));
    let members = st.members.filter(member_is_not(fabric, group));
    bounded::lemma_filter(st.members, member_is_not(fabric, group));
    bounded::lemma_first(members, uses(fabric, id));
    assert(group::entry_of_fabric(fabric) =~= |e: MapEntry| e.fabric == fabric);
    lemma_kept_fits(st.keys.map, fabric, group);
    let kept = st.keys.map.filter(other_groups(fabric, group));
    let others = st.keys.map.filter(group::entry_not_of_fabric(fabric));
    bounded::lemma_filter(st.keys.map, other_groups(fabric, group));
    bounded::lemma_filter(st.keys.map, group::entry_not_of_fabric(fabric));
    let fresh = group::entries_for(fabric, pairs_of(kept));
    assert(fresh =~= kept) by {
        assert forall|k: int| 0 <= k < kept.len() implies fresh[k] == kept[k] by {
            assert(other_groups(fabric, group)(kept[k]));
        }
    }
    assert(after.keys.map == others + kept);
    assert forall|e: MapEntry| #[trigger] after.keys.map.contains(e) == (st.keys.map.contains(e) && !(e.fabric == fabric && e.group
        == group)) by {
        assert(others.contains(e) == (st.keys.map.contains(e) && e.fabric != fabric));
        assert(kept.contains(e) == (st.keys.map.contains(e) && e.fabric == fabric && e.group != group));
        if others.contains(e) {
            let k = choose|k: int| 0 <= k < others.len() && others[k] == e;
            assert(after.keys.map[k] == e);
        }
        if kept.contains(e) {
            let k = choose|k: int| 0 <= k < kept.len() && kept[k] == e;
            assert(after.keys.map[others.len() + k] == e);
        }
        if after.keys.map.contains(e) {
            let k = choose|k: int| 0 <= k < after.keys.map.len() && after.keys.map[k] == e;
            if k < others.len() {
                assert(others[k] == e);
            } else {
                assert(kept[k - others.len()] == e);
            }
        }
    }
    let keys = group::map_replaced(st.keys, l, fabric, pairs_of(kept)).0;
    lemma_has_set(keys, fabric, id);
    group::law_removing_takes_one_key_set(keys, fabric, id);
    let used = exists|k: int|
        0 <= k < st.members.len() && k != i && (#[trigger] st.members[k]).fabric == fabric && st.members[k].key_set == id;
    match bounded::first(members, uses(fabric, id)) {
        Some(k) => {
            assert(uses(fabric, id)(members[k]));
            assert(members.contains(members[k]));
            let m = choose|m: int| 0 <= m < st.members.len() && st.members[m] == members[k];
            assert(st.members[m].fabric == fabric);
            assert(m != i);
            assert(used);
        },
        None => {
            if used {
                let k = choose|k: int|
                    0 <= k < st.members.len() && k != i && (#[trigger] st.members[k]).fabric == fabric && st.members[k].key_set == id;
                assert(member_key()(st.members[k]) != member_key()(st.members[i]));
                assert(st.members.contains(st.members[k]) && member_is_not(fabric, group)(st.members[k]));
                assert(members.contains(st.members[k]));
                let m = choose|m: int| 0 <= m < members.len() && members[m] == st.members[k];
                assert(!uses(fabric, id)(members[m]));
            }
        },
    }
}

proof fn lemma_all_forgotten(st: State, l: Limits, fabric: FabricIndex, groups: Seq<GroupId>, n: int, m: MembershipModel)
    requires
        0 <= n <= groups.len(),
    ensures
        all_forgotten(st, l, fabric, groups, n).members.contains(m) == (st.members.contains(m) && !(m.fabric == fabric && exists|k: int|
            0 <= k < n && #[trigger] groups[k] == m.group)),
    decreases n,
{
    if n > 0 {
        lemma_all_forgotten(st, l, fabric, groups, n - 1, m);
        let before = all_forgotten(st, l, fabric, groups, n - 1);
        bounded::lemma_filter(before.members, member_is_not(fabric, groups[n - 1]));
    }
}

/// `LeaveGroup` for group zero takes the node out of every group of the accessing fabric and of no other; for a group without a
/// list, out of that group, and tells of all its endpoints.
pub proof fn law_a_group_is_left<const M: usize, const E: usize, const K: usize, const G: usize>(
    before: Groupcast<M, E, K, G>,
    after: Groupcast<M, E, K, G>,
    resolved: ResolvedCommand,
    b: Seq<u8>,
    items: Seq<Element>,
    group: u16,
    fabric: FabricIndex,
    ctx: InteractionContext,
    tag: Tag,
    a: InvokeAnswer,
)
    requires
        Groupcast::invokes(&before, &after, resolved, Some(b), ctx, tag, a),
        resolved.command == 0x01,
        ctx.fabric_index == Some(fabric),
        fabric.0 != 0,
        fields::decode(b, seq![Field(0, Kind::U16, Need::Required), Field(1, Kind::Array, Need::Optional)]) == Ok::<
            Seq<Element>,
            Status,
        >(items),
        fields::num16(items, 0) == Some(group),
        group == 0 || fields::container(items, 1) is None,
        bounded::distinct(before.memberships.models(), member_key()),
    ensures
        ({
            let was = before.memberships.models();
            let meant = |m: MembershipModel| m.fabric == fabric && (group == 0 || m.group == GroupId(group));
            let answered = |left: Seq<EndpointId>|
                a == Ok::<(Option<CommandId>, Seq<u8>), StatusIb>(
                    (
                        Some(0x02),
                        tlv::structure_bytes(
                            tag,
                            tlv::unsigned_bytes(Tag::Context(0), group as u64) + tlv::array_bytes(
                                Tag::Context(1),
                                tlv::concat(left, endpoint_bytes()),
                            ),
                        ),
                    ),
                );
            &&& (forall|i: int| 0 <= i < was.len() ==> !meant(#[trigger] was[i])) ==> a == im::refused(Status::NotFound)
                && after.state() == before.state()
            &&& (exists|i: int| 0 <= i < was.len() && meant(#[trigger] was[i])) ==> {
                &&& forall|m: MembershipModel| #[trigger] after.memberships.models().contains(m) == (was.contains(m) && !meant(m))
                &&& group == 0 ==> answered(Seq::empty())
            }
            &&& group != 0 ==> forall|i: int| 0 <= i < was.len() && meant(#[trigger] was[i]) ==> answered(was[i].endpoints)
        }),
        forall|e: EndpointId| #[trigger] endpoint_bytes()(e) == tlv::unsigned_bytes(Tag::Anonymous, e as u64),
{
    assert(leave_schema() =~= seq![Field(0, Kind::U16, Need::Required), Field(1, Kind::Array, Need::Optional)]);
    let was = before.memberships.models();
    let st = before.state();
    let l = before.setup().limits;
    if group == 0 {
        let groups = groups_of(was, fabric);
        let own = was.filter(of_fabric(fabric));
        bounded::lemma_filter(was, of_fabric(fabric));
        assert forall|i: int| 0 <= i < was.len() && (#[trigger] was[i]).fabric == fabric implies own.len() > 0 && exists|k: int|
            0 <= k < groups.len() && #[trigger] groups[k] == was[i].group by {
            assert(was.contains(was[i]) && of_fabric(fabric)(was[i]));
            assert(own.contains(was[i]));
            let k = choose|k: int| 0 <= k < own.len() && own[k] == was[i];
            assert(groups[k] == was[i].group);
        }
        if own.len() > 0 {
            assert(own.contains(own[0]));
            let k = choose|k: int| 0 <= k < was.len() && was[k] == own[0];
            assert(was[k].fabric == fabric);
        }
        assert forall|m: MembershipModel| groups.len() > 0 implies #[trigger] after.memberships.models().contains(m) == (was.contains(m)
            && m.fabric != fabric) by {
            lemma_all_forgotten(st, l, fabric, groups, groups.len() as int, m);
        }
    } else {
        let p = member_is(fabric, GroupId(group));
        bounded::lemma_first(was, p);
        bounded::lemma_filter(was, member_is_not(fabric, GroupId(group)));
        match bounded::first(was, p) {
            Some(at) => {
                assert(p(was[at]));
                assert forall|i: int| 0 <= i < was.len() && (#[trigger] was[i]).fabric == fabric && was[i].group == GroupId(group) implies i
                    == at by {
                    assert(member_key()(was[i]) == member_key()(was[at]));
                }
            },
            None => {
                assert forall|i: int| 0 <= i < was.len() implies !((#[trigger] was[i]).fabric == fabric && was[i].group == GroupId(group)) by {
                    assert(!p(was[i]));
                }
            },
        }
    }
}

/// `UpdateGroupKey` and `ConfigureAuxiliaryACL` change the key set or the access entries of that one group and nothing else of
/// any group, where the node is in it.
pub proof fn law_a_membership_is_changed<const M: usize, const E: usize, const K: usize, const G: usize>(
    before: Groupcast<M, E, K, G>,
    after: Groupcast<M, E, K, G>,
    resolved: ResolvedCommand,
    b: Seq<u8>,
    group: u16,
    i: int,
    fabric: FabricIndex,
    ctx: InteractionContext,
    tag: Tag,
    a: InvokeAnswer,
)
    requires
        Groupcast::invokes(&before, &after, resolved, Some(b), ctx, tag, a),
        ctx.fabric_index == Some(fabric),
        fabric.0 != 0,
        group != 0,
        bounded::distinct(before.memberships.models(), member_key()),
        0 <= i < before.memberships.models().len(),
        before.memberships.models()[i].fabric == fabric,
        before.memberships.models()[i].group == GroupId(group),
    ensures
        ({
            let was = before.memberships.models();
            &&& resolved.command == 0x03 ==> (fields::decode(
                b,
                seq![
                    Field(0, Kind::U16, Need::Required),
                    Field(1, Kind::U16, Need::Required),
                    Field(2, Kind::Octets, Need::Optional),
                ],
            ) matches Ok(items) ==> (fields::num16(items, 0) == Some(group) && fields::num16(items, 1) is Some ==> {
                let id = fields::num16(items, 1)->Some_0;
                let key = fields::octets(b, items, 2);
                &&& a == im::done() ==> {
                    &&& id != 0
                    &&& after.memberships.models() == was.update(i, MembershipModel { key_set: id, ..was[i] })
                    &&& has_set(after.keys@.sets, fabric, id)
                    &&& key is Some ==> after.keys@.sets == before.keys@.sets.push(
                        KeySetModel {
                            fabric,
                            id,
                            policy: GroupKeySecurityPolicy::TrustFirst,
                            epochs: seq![EpochModel { key: key->Some_0, start: 1 }],
                        },
                    )
                    &&& key is None ==> after.keys@.sets == before.keys@.sets
                    &&& after.keys@.map.contains(MapEntry { fabric, group: GroupId(group), key_set: id })
                }
                &&& key is None && has_set(before.keys@.sets, fabric, id) && id != 0 && (exists|k: int|
                    0 <= k < before.keys@.map.len() && (#[trigger] before.keys@.map[k]).fabric == fabric && before.keys@.map[k].group
                        == GroupId(group)) ==> a == im::done()
                &&& key is None && !has_set(before.keys@.sets, fabric, id) && id != 0 ==> a == im::refused(Status::NotFound)
                &&& key is Some && id != 0 && key->Some_0.len() == 16 && has_set(before.keys@.sets, fabric, id) ==> a
                    == im::refused(Status::AlreadyExists)
            }))
            &&& resolved.command == 0x04 ==> (fields::decode(
                b,
                seq![Field(0, Kind::U16, Need::Required), Field(1, Kind::Bool, Need::Required)],
            ) matches Ok(items) ==> (fields::num16(items, 0) == Some(group) && fields::flag(items, 1) is Some ==> {
                &&& a == im::done()
                &&& after.keys@ == before.keys@
                &&& after.memberships.models() == was.update(
                    i,
                    MembershipModel { has_auxiliary_acl: fields::flag(items, 1)->Some_0, ..was[i] },
                )
            }))
        }),
{
    assert(update_schema() =~= seq![
        Field(0, Kind::U16, Need::Required),
        Field(1, Kind::U16, Need::Required),
        Field(2, Kind::Octets, Need::Optional),
    ]);
    assert(acl_schema() =~= seq![Field(0, Kind::U16, Need::Required), Field(1, Kind::Bool, Need::Required)]);
    let was = before.memberships.models();
    let p = member_is(fabric, GroupId(group));
    bounded::lemma_first(was, p);
    assert(p(was[i]));
    let at = bounded::first(was, p)->Some_0;
    assert(p(was[at]));
    assert(member_key()(was[at]) == member_key()(was[i]));
    assert(at == i);
    if let Ok(items) = fields::decode(b, update_schema()) {
        if let Some(id) = fields::num16(items, 1) {
            let l = before.setup().limits;
            let key = fields::octets(b, items, 2);
            lemma_has_set(before.keys@, fabric, id);
            let (keys, why) = key_installed(before.keys@, l, fabric, id, key);
            if let Some(k) = key {
                group::law_writing_touches_one_key_set(before.keys@, l, made_set(fabric, id, k));
                group::law_a_written_key_set_is_read_back(before.keys@, l, made_set(fabric, id, k));
            }
            lemma_has_set(keys, fabric, id);
            group::law_mapping_touches_one_group(keys, l, fabric, GroupId(group), id);
            if group::group_mapped(keys, l, fabric, GroupId(group), id).1 is None {
                group::law_a_mapped_group_is_found(keys, l, fabric, GroupId(group), id);
                let map = group::group_mapped(keys, l, fabric, GroupId(group), id).0.map;
                bounded::lemma_first(map, group::entry_is(fabric, GroupId(group)));
            }
        }
    }
}

/// As many multicast addresses are in use as groups have one of their own, and one more where a group has not.
pub proof fn law_addresses_are_counted(members: Seq<MembershipModel>)
    ensures
        used_addresses(members) == members.filter(|m: MembershipModel| m.policy is PerGroup).len() + (if exists|i: int|
            0 <= i < members.len() && (#[trigger] members[i]).policy is IanaAddr {
            1int
        } else {
            0
        }),
{
    lemma_counted(members, members.len() as int);
    assert(members.take(members.len() as int) =~= members);
}

proof fn lemma_counted(members: Seq<MembershipModel>, n: int)
    requires
        0 <= n <= members.len(),
    ensures
        own_addresses(members, n) == members.take(n).filter(|m: MembershipModel| m.policy is PerGroup).len(),
        shares_address(members, n) == exists|i: int| 0 <= i < n && (#[trigger] members[i]).policy is IanaAddr,
    decreases n,
{
    let p = |m: MembershipModel| m.policy is PerGroup;
    if n > 0 {
        lemma_counted(members, n - 1);
        bounded::lemma_filter_push(members.take(n - 1), members[n - 1], p);
        assert(members.take(n) =~= members.take(n - 1).push(members[n - 1]));
    } else {
        assert(members.take(n) =~= Seq::empty());
        bounded::lemma_filter_none(members.take(n), p);
    }
}

/// Memberships, encoded as they are read.
pub open spec fn membership_bytes(listener: bool) -> spec_fn(MembershipModel) -> Seq<u8> {
    |m: MembershipModel|
        tlv::structure_bytes(
            Tag::Anonymous,
            tlv::unsigned_bytes(Tag::Context(0), m.group.0 as u64) + (if listener {
                tlv::array_bytes(Tag::Context(1), tlv::concat(m.endpoints, endpoint_bytes()))
            } else {
                Seq::empty()
            }) + tlv::unsigned_bytes(Tag::Context(2), m.key_set as u64) + (if listener {
                tlv::bool_bytes(Tag::Context(3), m.has_auxiliary_acl)
            } else {
                Seq::empty()
            }) + tlv::unsigned_bytes(Tag::Context(4), if m.policy is PerGroup { 1 } else { 0 }) + tlv::unsigned_bytes(
                Tag::Context(254),
                m.fabric.0 as u64,
            ),
        )
}

proof fn lemma_member_items(members: Seq<MembershipModel>, ctx: InteractionContext, listener: bool, n: int)
    requires
        0 <= n <= members.len(),
    ensures
        member_items(members, ctx, listener, n) == tlv::concat(
            members.take(n).filter(|m: MembershipModel| ctx.sees(m.fabric)),
            membership_bytes(listener),
        ),
    decreases n,
{
    let p = |m: MembershipModel| ctx.sees(m.fabric);
    if n > 0 {
        lemma_member_items(members, ctx, listener, n - 1);
        let f = members.take(n - 1).filter(p);
        bounded::lemma_filter_push(members.take(n - 1), members[n - 1], p);
        assert(members.take(n) =~= members.take(n - 1).push(members[n - 1]));
        if p(members[n - 1]) {
            assert(f.push(members[n - 1]).drop_last() =~= f);
            assert(member_bytes(members[n - 1], listener) =~= membership_bytes(listener)(members[n - 1]));
        } else {
            assert(member_items(members, ctx, listener, n) =~= member_items(members, ctx, listener, n - 1));
        }
    } else {
        assert(members.take(n) =~= Seq::empty());
        bounded::lemma_filter_none(members.take(n), p);
        assert(members.take(n).filter(p) =~= Seq::empty());
    }
}

/// What a read shows: every group that the reader may see, whole, in order and no other; the limits; and how many addresses are
/// in use.
pub proof fn law_memberships_are_read_as_they_are<const M: usize, const E: usize, const K: usize, const G: usize>(
    c: Groupcast<M, E, K, G>,
    resolved: Resolved,
    ctx: InteractionContext,
    tag: Tag,
    a: ReadAnswer,
)
    requires
        c.answers(resolved, ctx, tag, a),
    ensures
        resolved.attribute == 0x0000 ==> a == Ok::<Seq<u8>, Status>(
            tlv::array_bytes(
                tag,
                tlv::concat(
                    c.memberships.models().filter(|m: MembershipModel| ctx.sees(m.fabric)),
                    membership_bytes(c.feature_map & 1 != 0),
                ),
            ),
        ),
        resolved.attribute == 0x0001 ==> a is Ok && tlv::shows_number(a->Ok_0, 0, tag, c.max_membership as u64),
        resolved.attribute == 0x0002 ==> a is Ok && tlv::shows_number(a->Ok_0, 0, tag, c.max_addresses as u64),
        resolved.attribute == 0x0003 ==> a is Ok && tlv::shows_number(
            a->Ok_0,
            0,
            tag,
            used_addresses(c.memberships.models()) as u64,
        ),
        resolved.attribute == 0x0004 ==> a is Ok && tlv::shows_number(a->Ok_0, 0, tag, c.fabric_under_test.0 as u64),
{
    assert forall|v: u64| tlv::shows_number(#[trigger] tlv::unsigned_bytes(tag, v), 0, tag, v) by {
        tlv::lemma_shows_number(tag, v);
    }
    let members = c.memberships.models();
    lemma_member_items(members, ctx, c.feature_map & 1 != 0, members.len() as int);
    assert(members.take(members.len() as int) =~= members);
}

/// How the cluster describes itself follows from the features and from what the product chooses: each attribute, command and event
/// is there exactly where they say so, with who may read, write or invoke it, and nothing else is.
pub proof fn law_the_cluster_describes_itself(features: u32, o: conformance::OptionalModel, c: crate::dm::ClusterModel)
    requires
        conformance::conform(defined(), features, o) == Ok::<crate::dm::ClusterModel, ErrorCode>(c),
    ensures
        c.id == 0x0065,
        c.revision == 1,
        c.feature_map == features,
        features & !0x07u32 == 0,
        c.attributes.contains(conformance::shown_attribute(0x0000, None)) == (o.attributes.contains(0x0000)),
        c.attributes.contains(conformance::shown_attribute(0x0001, None)) == (o.attributes.contains(0x0001)),
        c.attributes.contains(conformance::shown_attribute(0x0002, None)) == (o.attributes.contains(0x0002)),
        c.attributes.contains(conformance::shown_attribute(0x0003, None)) == (o.attributes.contains(0x0003)),
        c.attributes.contains(conformance::shown_attribute(0x0004, None)) == (o.attributes.contains(0x0004)),
        c.accepted_commands.contains(conformance::shown_command(0x00, Privilege::Manage, true, false, None)) == (o.commands.contains(0x00)),
        c.accepted_commands.contains(conformance::shown_command(0x01, Privilege::Manage, true, false, Some(0x02u32))) == (o.commands.contains(0x01)),
        c.accepted_commands.contains(conformance::shown_command(0x03, Privilege::Manage, true, false, None)) == (o.commands.contains(0x03)),
        c.accepted_commands.contains(conformance::shown_command(0x04, Privilege::Administer, true, false, None)) == ((features & 0x01 != 0 && o.commands.contains(0x04))),
        c.attributes.len() <= 5,
        c.accepted_commands.len() <= 4,
        c.events.len() <= 0,
{
    let d = defined();
    assert(conformance::told_apart(d.attributes));
    assert(conformance::told_apart(d.commands));
    assert(conformance::told_apart(d.events));
    conformance::lemma_described(d.attributes, features, o.attributes, conformance::shown_attribute(0x0000, None), 0);
    conformance::lemma_described(d.attributes, features, o.attributes, conformance::shown_attribute(0x0001, None), 1);
    conformance::lemma_described(d.attributes, features, o.attributes, conformance::shown_attribute(0x0002, None), 2);
    conformance::lemma_described(d.attributes, features, o.attributes, conformance::shown_attribute(0x0003, None), 3);
    conformance::lemma_described(d.attributes, features, o.attributes, conformance::shown_attribute(0x0004, None), 4);
    conformance::lemma_described(d.commands, features, o.commands, conformance::shown_command(0x00, Privilege::Manage, true, false, None), 0);
    conformance::lemma_described(d.commands, features, o.commands, conformance::shown_command(0x01, Privilege::Manage, true, false, Some(0x02u32)), 1);
    conformance::lemma_described(d.commands, features, o.commands, conformance::shown_command(0x03, Privilege::Manage, true, false, None), 2);
    conformance::lemma_described(d.commands, features, o.commands, conformance::shown_command(0x04, Privilege::Administer, true, false, None), 3);
    conformance::lemma_at_most(d.attributes, features, o.attributes, d.attributes.len() as int);
    conformance::lemma_at_most(d.commands, features, o.commands, d.commands.len() as int);
    conformance::lemma_at_most(d.events, features, o.events, d.events.len() as int);
}

/// A fabric that is removed takes its memberships along, all of them and no others.
pub proof fn law_a_removed_fabric_takes_its_memberships<const M: usize, const E: usize, const K: usize, const G: usize>(before: Groupcast<M, E, K, G>, after: Groupcast<M, E, K, G>, fabric: FabricIndex, x: MembershipModel)
    requires
        Groupcast::outlives(&before, &after, Lifecycle::FabricRemoved(fabric)),
    ensures
        after.memberships.models().contains(x) == (before.memberships.models().contains(x) && x.fabric != fabric),
        after.memberships.models() == before.memberships.models().filter(|e: MembershipModel| e.fabric != fabric),
{
    assert(not_of_fabric(fabric) =~= |e: MembershipModel| e.fabric != fabric);
    bounded::lemma_filter(before.memberships.models(), not_of_fabric(fabric));
}

} // verus!
