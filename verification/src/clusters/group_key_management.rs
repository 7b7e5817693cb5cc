//! Group Key Management, cluster `0x003F`: the keys that make groupcast possible, and which of
//! them secures which group.
//!
//! Keys go in and never come back out: a key set can be written, listed, asked for its policy and
//! its start times, and removed, but its keys are answered with null.

use vstd::prelude::*;

use crate::bounded;
use crate::bounded::List;
use crate::clusters::dispatch::Cluster;
use crate::conformance;
use crate::conformance::{Conformance, Conforming, Definition, DefinitionModel, Optional};
use crate::crypto::{SymmetricKey, SYMMETRIC_KEY_LENGTH_BYTES};
use crate::dm;
use crate::dm::{AccessQualities, Privilege};
use crate::error::ErrorCode;
use crate::fields;
use crate::fields::{Field, Fields, FromTlv, Kind, Need};
use crate::group;
use crate::group::{
    EpochKey, EpochModel, GroupKeySecurityPolicy, GroupKeySet, GroupKeys, KeySetId, KeySetModel, KeysModel, Limits, MapEntry,
};
use crate::im;
use crate::im::{
    AttributeId, ClusterHandler, ClusterId, CommandId, EndpointId, InteractionContext, InvokeAnswer, Lifecycle, ReadAnswer, Reply,
    Resolved, ResolvedCommand, Status, StatusIb, WriteOp,
};
use crate::msg::{FabricIndex, GroupId};
use crate::tlv;
use crate::tlv::{ContainerKind, Element, Tag, Value};

verus! {

/// The cluster.
pub const ID: ClusterId = 0x003F;

/// Its revision.
pub const REVISION: u16 = 2;

/// `GroupKeyMap`.
pub const GROUP_KEY_MAP: AttributeId = 0x0000;

/// `GroupTable`.
pub const GROUP_TABLE: AttributeId = 0x0001;

/// `MaxGroupsPerFabric`.
pub const MAX_GROUPS_PER_FABRIC: AttributeId = 0x0002;

/// `MaxGroupKeysPerFabric`.
pub const MAX_GROUP_KEYS_PER_FABRIC: AttributeId = 0x0003;

/// `KeySetWrite`.
pub const KEY_SET_WRITE: CommandId = 0x00;

/// `KeySetRead`.
pub const KEY_SET_READ: CommandId = 0x01;

/// `KeySetReadResponse`.
pub const KEY_SET_READ_RESPONSE: CommandId = 0x02;

/// `KeySetRemove`.
pub const KEY_SET_REMOVE: CommandId = 0x03;

/// `KeySetReadAllIndices`.
pub const KEY_SET_READ_ALL_INDICES: CommandId = 0x04;

/// `KeySetReadAllIndicesResponse`.
pub const KEY_SET_READ_ALL_INDICES_RESPONSE: CommandId = 0x05;

/// The field that says which fabric an entry belongs to.
pub const FABRIC_INDEX_FIELD: u8 = 254;

/// One membership that the node holds.
#[derive(Debug, Clone, Copy, PartialEq, Eq, Structural)]
pub struct Member {
    /// The fabric.
    pub fabric: FabricIndex,
    /// The group.
    pub group: GroupId,
    /// The endpoint.
    pub endpoint: EndpointId,
}

/// What a device knows about which endpoints are in which group.
pub trait GroupTable {
    /// Every membership, in any order.
    fn memberships(&self) -> Vec<Member>;

    /// A group's name, where one was kept.
    fn name(&self, fabric: FabricIndex, group: GroupId) -> (r: Option<&str>)
        default_ensures
            r is None,
    {
        None
    }
}

/// A node without groups.
impl GroupTable for () {
    fn memberships(&self) -> (m: Vec<Member>)
        ensures
            m@ == Seq::<Member>::empty(),
    {
        Vec::new()
    }
}

/// The fields of a key set.
pub open spec fn set_schema() -> Seq<Field> {
    seq![
        Field(0, Kind::U16, Need::Required),
        Field(1, Kind::Enum(1), Need::Required),
        Field(2, Kind::Octets, Need::Nullable),
        Field(3, Kind::U64, Need::Nullable),
        Field(4, Kind::Octets, Need::Nullable),
        Field(5, Kind::U64, Need::Nullable),
        Field(6, Kind::Octets, Need::Nullable),
        Field(7, Kind::U64, Need::Nullable),
        Field(8, Kind::U8, Need::Optional),
        Field(FABRIC_INDEX_FIELD, Kind::U8, Need::Optional),
    ]
}

/// What the first key of a set comes to: it and its start have to be there, it has to be a key,
/// and it may not start at zero.
pub open spec fn first_epoch(key: Option<Seq<u8>>, start: Option<u64>) -> Option<Status> {
    match (key, start) {
        (Some(key), Some(start)) => if key.len() != SYMMETRIC_KEY_LENGTH_BYTES {
            Some(Status::ConstraintError)
        } else if start == 0 {
            Some(Status::InvalidCommand)
        } else {
            None
        },
        _ => Some(Status::InvalidCommand),
    }
}

/// What a later key comes to: it and its start come together, after a key that is there, it has to
/// be a key, and it has to start later.
pub open spec fn later_epoch(key: Option<Seq<u8>>, start: Option<u64>, after: Option<u64>, latest: u64) -> Option<Status> {
    match (key, start) {
        (None, None) => None,
        (Some(key), Some(start)) => if after is None {
            Some(Status::InvalidCommand)
        } else if key.len() != SYMMETRIC_KEY_LENGTH_BYTES {
            Some(Status::ConstraintError)
        } else if start <= latest {
            Some(Status::InvalidCommand)
        } else {
            None
        },
        _ => Some(Status::InvalidCommand),
    }
}

/// Three keys and their starts, each as far as it is there.
pub struct Epochs {
    /// The first.
    pub first: (Option<Seq<u8>>, Option<u64>),
    /// The second.
    pub second: (Option<Seq<u8>>, Option<u64>),
    /// The third.
    pub third: (Option<Seq<u8>>, Option<u64>),
}

/// The keys of a set, as its fields give them.
pub open spec fn epochs_in(b: Seq<u8>, items: Seq<Element>) -> Epochs {
    Epochs {
        first: (fields::octets(b, items, 2), fields::num(items, 3)),
        second: (fields::octets(b, items, 4), fields::num(items, 5)),
        third: (fields::octets(b, items, 6), fields::num(items, 7)),
    }
}

/// What is wrong with the keys of a set, in the order in which they are looked at.
pub open spec fn validated(e: Epochs) -> Option<Status> {
    match first_epoch(e.first.0, e.first.1) {
        Some(status) => Some(status),
        None => match later_epoch(e.second.0, e.second.1, e.first.1, e.first.1->Some_0) {
            Some(status) => Some(status),
            None => later_epoch(
                e.third.0,
                e.third.1,
                e.second.1,
                if e.second.1 is Some { e.second.1->Some_0 } else { e.first.1->Some_0 },
            ),
        },
    }
}

/// The keys that are there, oldest first.
pub open spec fn present(e: Epochs) -> Seq<EpochModel> {
    one(e.first) + one(e.second) + one(e.third)
}

/// A key, where it and its start are there.
pub open spec fn one(e: (Option<Seq<u8>>, Option<u64>)) -> Seq<EpochModel> {
    match e {
        (Some(key), Some(start)) => seq![EpochModel { key, start }],
        _ => Seq::empty(),
    }
}

/// The policy that a field holds.
pub open spec fn policy_in(items: Seq<Element>) -> GroupKeySecurityPolicy {
    if fields::num(items, 1) == Some(0u64) {
        GroupKeySecurityPolicy::TrustFirst
    } else {
        GroupKeySecurityPolicy::CacheAndSync
    }
}

/// The key set that `KeySetWrite` brings, or what is wrong with it.
pub open spec fn written_set(data: Option<Seq<u8>>, fabric: FabricIndex) -> Result<KeySetModel, Status> {
    match fields::decode_some(data, seq![Field(0, Kind::Structure, Need::Required)]) {
        Err(status) => Err(status),
        Ok(outer) => match fields::container(outer, 0) {
            None => Err(Status::InvalidCommand),
            Some(start) => match fields::decode_at(data->Some_0, start as int, set_schema()) {
                Err(status) => Err(status),
                Ok(items) => match fields::num16(items, 0) {
                    None => Err(Status::InvalidCommand),
                    Some(id) => {
                        let epochs = epochs_in(data->Some_0, items);
                        match validated(epochs) {
                            Some(status) => Err(status),
                            None => Ok(
                                KeySetModel { fabric, id, policy: policy_in(items), epochs: present(epochs) },
                            ),
                        }
                    },
                },
            },
        },
    }
}

/// The start of the key at a position, or null.
pub open spec fn start_bytes(set: KeySetModel, i: int, tag: u8) -> Seq<u8> {
    tlv::nullable_bytes(Tag::Context(tag), if i < set.epochs.len() { Some(set.epochs[i].start) } else { None })
}

/// A key set as it is read: everything about it but the keys.
pub open spec fn set_bytes(set: KeySetModel, tag: Tag) -> Seq<u8> {
    tlv::structure_bytes(
        tag,
        tlv::unsigned_bytes(Tag::Context(0), set.id as u64) + tlv::unsigned_bytes(
            Tag::Context(1),
            group::policy_value(set.policy) as u64,
        ) + tlv::null_bytes(Tag::Context(2)) + start_bytes(set, 0, 3) + tlv::null_bytes(Tag::Context(4)) + start_bytes(
            set,
            1,
            5,
        ) + tlv::null_bytes(Tag::Context(6)) + start_bytes(set, 2, 7) + tlv::unsigned_bytes(
            Tag::Context(FABRIC_INDEX_FIELD),
            set.fabric.0 as u64,
        ),
    )
}

/// The answer to `KeySetRead`.
pub open spec fn read_response(set: KeySetModel, tag: Tag) -> Seq<u8> {
    tlv::structure_bytes(tag, set_bytes(set, Tag::Context(0)))
}

/// The key sets of a fabric among the first `n`, by their numbers.
pub open spec fn index_items(sets: Seq<KeySetModel>, fabric: FabricIndex, n: int) -> Seq<u8>
    decreases n,
{
    if n <= 0 {
        Seq::empty()
    } else {
        index_items(sets, fabric, n - 1) + (if sets[n - 1].fabric == fabric {
            tlv::unsigned_bytes(Tag::Anonymous, sets[n - 1].id as u64)
        } else {
            Seq::empty()
        })
    }
}

/// The answer to `KeySetReadAllIndices`.
pub open spec fn indices_response(sets: Seq<KeySetModel>, fabric: FabricIndex, tag: Tag) -> Seq<u8> {
    tlv::structure_bytes(tag, tlv::array_bytes(Tag::Context(0), index_items(sets, fabric, sets.len() as int)))
}

/// What a command comes to: the keys after it, and the answer.
pub open spec fn commanded(
    k: KeysModel,
    l: Limits,
    command: CommandId,
    data: Option<Seq<u8>>,
    ctx: InteractionContext,
    tag: Tag,
) -> (KeysModel, InvokeAnswer) {
    match ctx.accessing() {
        None => (k, im::refused(Status::UnsupportedAccess)),
        Some(fabric) => if command == KEY_SET_WRITE {
            match written_set(data, fabric) {
                Err(status) => (k, im::refused(status)),
                Ok(set) => match group::set_written(k, l, set) {
                    (after, Some(status)) => (after, im::refused(status)),
                    (after, None) => (after, im::done()),
                },
            }
        } else if command == KEY_SET_READ {
            match fields::decode_some(data, id_schema()) {
                Err(status) => (k, im::refused(status)),
                Ok(items) => match fields::num16(items, 0) {
                    None => (k, im::refused(Status::InvalidCommand)),
                    Some(id) => match group::set_at(k, fabric, id) {
                        None => (k, im::refused(Status::NotFound)),
                        Some(set) => (k, Ok((Some(KEY_SET_READ_RESPONSE), read_response(set, tag)))),
                    },
                },
            }
        } else if command == KEY_SET_REMOVE {
            match fields::decode_some(data, id_schema()) {
                Err(status) => (k, im::refused(status)),
                Ok(items) => match fields::num16(items, 0) {
                    None => (k, im::refused(Status::InvalidCommand)),
                    Some(id) => match group::set_removed(k, fabric, id) {
                        (after, Some(status)) => (after, im::refused(status)),
                        (after, None) => (after, im::done()),
                    },
                },
            }
        } else if command == KEY_SET_READ_ALL_INDICES {
            (k, Ok((Some(KEY_SET_READ_ALL_INDICES_RESPONSE), indices_response(k.sets, fabric, tag))))
        } else {
            (k, im::refused(Status::UnsupportedCommand))
        },
    }
}

/// The field of `KeySetRead` and of `KeySetRemove`.
pub open spec fn id_schema() -> Seq<Field> {
    seq![Field(0, Kind::U16, Need::Required)]
}

/// The fields of an entry of the map; the client's own word for the fabric is ignored.
pub open spec fn entry_schema() -> Seq<Field> {
    seq![
        Field(1, Kind::U16, Need::Required),
        Field(2, Kind::U16, Need::Required),
        Field(FABRIC_INDEX_FIELD, Kind::U8, Need::Optional),
    ]
}

/// One entry of the map, as a client writes it.
#[derive(Debug, Clone, Copy, PartialEq, Eq, Structural)]
pub struct WrittenEntry {
    /// The group.
    pub group: GroupId,
    /// Its key set.
    pub key_set: KeySetId,
}

impl FromTlv for WrittenEntry {
    open spec fn of(b: Seq<u8>, e: Element) -> Result<Self, Status> {
        match e.value {
            Value::Container(ContainerKind::Structure, start) => match fields::decode_at(b, start as int, entry_schema()) {
                Ok(items) => match (fields::num16(items, 1), fields::num16(items, 2)) {
                    (Some(group), Some(key_set)) => Ok(WrittenEntry { group: GroupId(group), key_set }),
                    _ => Err(Status::InvalidAction),
                },
                Err(_) => Err(Status::InvalidAction),
            },
            _ => Err(Status::InvalidAction),
        }
    }

    fn from_tlv(data: &[u8], e: &Element) -> (r: Result<Self, Status>) {
        match e.value {
            Value::Container(ContainerKind::Structure, start) => {
                let schema: Vec<Field> = vec![
                    Field(1, Kind::U16, Need::Required),
                    Field(2, Kind::U16, Need::Required),
                    Field(FABRIC_INDEX_FIELD, Kind::U8, Need::Optional),
                ];
                proof {
                    assert(schema@ =~= entry_schema());
                }
                match fields::read_at(data, start, &schema) {
                    Ok(f) => match (f.num16(1), f.num16(2)) {
                        (Some(group), Some(key_set)) => Ok(WrittenEntry { group: GroupId(group), key_set }),
                        _ => Err(Status::InvalidAction),
                    },
                    Err(_) => Err(Status::InvalidAction),
                }
            },
            _ => Err(Status::InvalidAction),
        }
    }
}

/// Entries as pairs.
pub open spec fn pairs(entries: Seq<WrittenEntry>) -> Seq<(GroupId, KeySetId)> {
    entries.map_values(|e: WrittenEntry| (e.group, e.key_set))
}

/// What a write of the map comes to, with room for `cap` entries in one write.
pub open spec fn map_written(
    k: KeysModel,
    l: Limits,
    attribute: AttributeId,
    data: Seq<u8>,
    op: WriteOp,
    ctx: InteractionContext,
) -> (KeysModel, Option<Status>) {
    if attribute != GROUP_KEY_MAP {
        (k, Some(Status::UnsupportedWrite))
    } else {
        match ctx.accessing() {
            None => (k, Some(Status::UnsupportedAccess)),
            Some(fabric) => match tlv::element_at(data, 0) {
                None => (k, Some(Status::InvalidAction)),
                Some((e, _)) => match op {
                    WriteOp::Replace => if !e.is_array() {
                        (k, Some(Status::InvalidAction))
                    } else {
                        match fields::list_of::<WrittenEntry>(
                            data,
                            e.content(),
                            l.groups as int,
                            Status::ResourceExhausted,
                        ) {
                            Err(status) => (k, Some(status)),
                            Ok(entries) => group::map_replaced(k, l, fabric, pairs(entries)),
                        }
                    },
                    WriteOp::Append => match WrittenEntry::of(data, e) {
                        Err(status) => (k, Some(status)),
                        Ok(entry) => group::group_mapped(k, l, fabric, entry.group, entry.key_set),
                    },
                },
            },
        }
    }
}

/// The entries of the map among the first `n` that a read gives.
pub open spec fn map_items(map: Seq<MapEntry>, ctx: InteractionContext, n: int) -> Seq<u8>
    decreases n,
{
    if n <= 0 {
        Seq::empty()
    } else {
        map_items(map, ctx, n - 1) + (if ctx.sees(map[n - 1].fabric) {
            entry_bytes(map[n - 1])
        } else {
            Seq::empty()
        })
    }
}

/// One entry of the map.
pub open spec fn entry_bytes(e: MapEntry) -> Seq<u8> {
    tlv::structure_bytes(
        Tag::Anonymous,
        tlv::unsigned_bytes(Tag::Context(1), e.group.0 as u64) + tlv::unsigned_bytes(Tag::Context(2), e.key_set as u64)
            + tlv::unsigned_bytes(Tag::Context(FABRIC_INDEX_FIELD), e.fabric.0 as u64),
    )
}

/// A group of a fabric.
#[derive(Debug, Clone, Copy, PartialEq, Eq, Structural)]
pub struct GroupOf {
    /// The fabric.
    pub fabric: FabricIndex,
    /// The group.
    pub group: GroupId,
}

/// The group that a membership is in.
pub open spec fn same_group(g: GroupOf) -> spec_fn(GroupOf) -> bool {
    |o: GroupOf| o == g
}

/// The groups that a read gives, each once, in the order of their first membership among the first
/// `n`; at most `cap` of them.
pub open spec fn groups_in(members: Seq<Member>, ctx: InteractionContext, cap: nat, n: int) -> Seq<GroupOf>
    decreases n,
{
    if n <= 0 {
        Seq::empty()
    } else {
        let before = groups_in(members, ctx, cap, n - 1);
        let m = members[n - 1];
        let g = GroupOf { fabric: m.fabric, group: m.group };
        if ctx.sees(m.fabric) && bounded::first(before, same_group(g)) is None && before.len() < cap {
            before.push(g)
        } else {
            before
        }
    }
}

/// The endpoints of a group among the first `n` memberships.
pub open spec fn endpoint_items(members: Seq<Member>, g: GroupOf, n: int) -> Seq<u8>
    decreases n,
{
    if n <= 0 {
        Seq::empty()
    } else {
        let m = members[n - 1];
        endpoint_items(members, g, n - 1) + (if m.fabric == g.fabric && m.group == g.group {
            tlv::unsigned_bytes(Tag::Anonymous, m.endpoint as u64)
        } else {
            Seq::empty()
        })
    }
}

/// One group with its endpoints and its name.
pub open spec fn group_bytes(members: Seq<Member>, g: GroupOf, name: Option<Seq<char>>) -> Seq<u8> {
    tlv::structure_bytes(
        Tag::Anonymous,
        tlv::unsigned_bytes(Tag::Context(1), g.group.0 as u64) + tlv::array_bytes(
            Tag::Context(2),
            endpoint_items(members, g, members.len() as int),
        ) + (match name {
            Some(s) => tlv::text_bytes(Tag::Context(3), s),
            None => Seq::empty(),
        }) + tlv::unsigned_bytes(Tag::Context(FABRIC_INDEX_FIELD), g.fabric.0 as u64),
    )
}

/// The first `n` groups, each with its name.
pub open spec fn group_items(members: Seq<Member>, groups: Seq<GroupOf>, names: Seq<Option<Seq<char>>>, n: int) -> Seq<u8>
    decreases n,
{
    if n <= 0 {
        Seq::empty()
    } else {
        group_items(members, groups, names, n - 1) + group_bytes(members, groups[n - 1], names[n - 1])
    }
}

/// The first names settle the first items.
proof fn lemma_group_items_prefix(members: Seq<Member>, groups: Seq<GroupOf>, a: Seq<Option<Seq<char>>>, b: Seq<Option<Seq<char>>>, n: int)
    requires
        0 <= n <= a.len(),
        n <= b.len(),
        forall|i: int| 0 <= i < n ==> a[i] == b[i],
    ensures
        group_items(members, groups, a, n) == group_items(members, groups, b, n),
    decreases n,
{
    if n > 0 {
        lemma_group_items_prefix(members, groups, a, b, n - 1);
    }
}

/// `GroupTable`, for memberships and the names of their groups.
pub open spec fn table_bytes(members: Seq<Member>, names: Seq<Option<Seq<char>>>, ctx: InteractionContext, cap: nat, tag: Tag) -> Seq<u8> {
    let groups = groups_in(members, ctx, cap, members.len() as int);
    tlv::array_bytes(tag, group_items(members, groups, names, groups.len() as int))
}

/// Group Key Management over the node's keys and its group memberships.
pub struct GroupKeyManagement<'a, T: GroupTable, const K: usize, const M: usize> {
    /// The keys.
    pub keys: GroupKeys<K, M>,
    /// The memberships.
    pub table: &'a T,
}

impl<'a, T: GroupTable, const K: usize, const M: usize> GroupKeyManagement<'a, T, K, M> {
    /// The description for features and for what the product chooses.
    pub fn conforming(features: u32, optional: &Optional) -> (r: Result<Conforming, ErrorCode>)
        ensures
            conformance::outcome(r) == conformance::conform(defined(), features, optional@),
    {
        Conforming::new(&definition(), features, optional)
    }

    /// A cluster over the node's keys and its group memberships.
    pub fn new(keys: GroupKeys<K, M>, table: &'a T) -> (c: Self)
        ensures
            c.keys == keys,
            c.table == table,
    {
        GroupKeyManagement { keys, table }
    }

    /// The keys that this cluster manages.
    pub fn keys(&self) -> (k: &GroupKeys<K, M>)
        ensures
            *k == self.keys,
    {
        &self.keys
    }

    /// Whether the device, asked for a group's name, may say this.
    pub open spec fn calls(table: &T, g: GroupOf, name: Option<Seq<char>>) -> bool {
        exists|s: Option<&str>| #[trigger]
            call_ensures(T::name, (table, g.fabric, g.group), s) && name == (match s {
                Some(s) => Some(s@),
                None => None::<Seq<char>>,
            })
    }

    /// Whether the device, asked for its memberships and for the name of each group among them that
    /// the reader may see, may say this.
    pub open spec fn says(table: &T, members: Vec<Member>, names: Seq<Option<Seq<char>>>, ctx: InteractionContext) -> bool {
        let groups = groups_in(members@, ctx, M as nat, members@.len() as int);
        &&& call_ensures(T::memberships, (table,), members)
        &&& names.len() == groups.len()
        &&& forall|i: int| 0 <= i < groups.len() ==> Self::calls(table, groups[i], #[trigger] names[i])
    }

    fn read_group_table(table: &T, ctx: &InteractionContext, tag: Tag) -> (out: Vec<u8>)
        ensures
            exists|members: Vec<Member>, names: Seq<Option<Seq<char>>>| #[trigger]
                Self::says(table, members, names, *ctx) && out@ == table_bytes(members@, names, *ctx, M as nat, tag),
    {
        let members: Vec<Member> = table.memberships();
        let groups: List<GroupOf, M> = collect_groups(&members, ctx);
        let list: &[GroupOf] = groups.as_slice();
        let mut items: Vec<u8> = Vec::new();
        let ghost mut names: Seq<Option<Seq<char>>> = Seq::empty();
        let mut i: usize = 0;
        while i < list.len()
            invariant
                i <= list@.len(),
                names.len() == i,
                forall|j: int| 0 <= j < i ==> Self::calls(table, list@[j], #[trigger] names[j]),
                items@ == group_items(members@, list@, names, i as int),
            decreases list.len() - i,
        {
            let g: GroupOf = list[i];
            let name: Option<&str> = table.name(g.fabric, g.group);
            let ghost before = names;
            let ghost seen = match name {
                Some(s) => Some(s@),
                None => None::<Seq<char>>,
            };
            put_group(&mut items, &members, g, name);
            proof {
                assert(Self::calls(table, g, seen));
                names = names.push(seen);
                lemma_group_items_prefix(members@, list@, before, names, i as int);
            }
            i = i + 1;
        }
        let mut out: Vec<u8> = Vec::new();
        tlv::put_array(&mut out, tag, &items);
        proof {
            assert(out@ =~= table_bytes(members@, names, *ctx, M as nat, tag));
            assert(Self::says(table, members, names, *ctx));
        }
        out
    }

    /// What a read may be answered with, over keys and memberships.
    pub open spec fn reads(
        keys: &GroupKeys<K, M>,
        table: &T,
        attribute: AttributeId,
        ctx: InteractionContext,
        tag: Tag,
        a: ReadAnswer,
    ) -> bool {
        if attribute == MAX_GROUPS_PER_FABRIC {
            a == Ok::<Seq<u8>, Status>(tlv::unsigned_bytes(tag, keys.limits().groups_per_fabric as u64))
        } else if attribute == MAX_GROUP_KEYS_PER_FABRIC {
            a == Ok::<Seq<u8>, Status>(tlv::unsigned_bytes(tag, keys.limits().sets_per_fabric as u64))
        } else if attribute == GROUP_KEY_MAP {
            a == Ok::<Seq<u8>, Status>(
                tlv::array_bytes(tag, map_items(keys@.map, ctx, keys@.map.len() as int)),
            )
        } else if attribute == GROUP_TABLE {
            exists|members: Vec<Member>, names: Seq<Option<Seq<char>>>| #[trigger]
                Self::says(table, members, names, ctx) && a == Ok::<Seq<u8>, Status>(
                    table_bytes(members@, names, ctx, M as nat, tag),
                )
        } else {
            a == Err::<Seq<u8>, Status>(Status::UnsupportedAttribute)
        }
    }

    /// Answers a read from keys and memberships.
    pub fn encode_attribute(
        keys: &GroupKeys<K, M>,
        table: &T,
        attribute: AttributeId,
        ctx: &InteractionContext,
        tag: Tag,
    ) -> (a: Result<Vec<u8>, Status>)
        ensures
            Self::reads(keys, table, attribute, *ctx, tag, im::read_answer(a)),
    {
        let mut out: Vec<u8> = Vec::new();
        match attribute {
            MAX_GROUPS_PER_FABRIC => {
                tlv::put_unsigned(&mut out, tag, keys.max_groups_per_fabric() as u64);
                proof {
                    assert(out@ =~= tlv::unsigned_bytes(tag, keys.limits().groups_per_fabric as u64));
                }
                Ok(out)
            },
            MAX_GROUP_KEYS_PER_FABRIC => {
                tlv::put_unsigned(&mut out, tag, keys.max_key_sets_per_fabric() as u64);
                proof {
                    assert(out@ =~= tlv::unsigned_bytes(tag, keys.limits().sets_per_fabric as u64));
                }
                Ok(out)
            },
            GROUP_KEY_MAP => Ok(encode_map(keys.map(), ctx, tag)),
            GROUP_TABLE => Ok(Self::read_group_table(table, ctx, tag)),
            _ => Err(Status::UnsupportedAttribute),
        }
    }

    fn write_command(&mut self, fields: Option<&[u8]>, fabric: FabricIndex) -> (a: Result<Reply, StatusIb>)
        ensures
            match written_set(im::octets(fields), fabric) {
                Err(status) => final(self).keys@ == old(self).keys@ && im::invoke_answer(a) == im::refused(status),
                Ok(set) => match group::set_written(old(self).keys@, old(self).keys.limits(), set) {
                    (after, Some(status)) => final(self).keys@ == after && im::invoke_answer(a) == im::refused(status),
                    (after, None) => final(self).keys@ == after && im::invoke_answer(a) == im::done(),
                },
            },
            final(self).keys.limits() == old(self).keys.limits(),
            final(self).table == old(self).table,
    {
        match read_set(fields, fabric) {
            Err(status) => im::refuse(status),
            Ok(set) => match self.keys.write_key_set(set) {
                Err(status) => im::refuse(status),
                Ok(_) => im::no_response(),
            },
        }
    }
}

fn collect_groups<const M: usize>(members: &Vec<Member>, ctx: &InteractionContext) -> (groups: List<GroupOf, M>)
    ensures
        groups@ == groups_in(members@, *ctx, M as nat, members@.len() as int),
{
    let mut groups: List<GroupOf, M> = List::new();
    let mut i: usize = 0;
    while i < members.len()
        invariant
            i <= members@.len(),
            groups@ == groups_in(members@, *ctx, M as nat, i as int),
        decreases members.len() - i,
    {
        let m: Member = members[i];
        let g: GroupOf = GroupOf { fabric: m.fabric, group: m.group };
        if ctx.visible(m.fabric) {
            let at: Option<usize> = groups.position(
                |o: &GroupOf| -> (b: bool)
                    ensures
                        b == (*o == g)
                    { o.fabric.0 == g.fabric.0 && o.group.0 == g.group.0 },
                Ghost(same_group(g)),
            );
            if at.is_none() {
                let _ = groups.push(g);
            }
        }
        i = i + 1;
    }
    groups
}

fn put_group(out: &mut Vec<u8>, members: &Vec<Member>, g: GroupOf, name: Option<&str>)
    ensures
        final(out)@ == old(out)@ + group_bytes(
            members@,
            g,
            match name {
                Some(s) => Some(s@),
                None => None,
            },
        ),
{
    let mut endpoints: Vec<u8> = Vec::new();
    let mut i: usize = 0;
    while i < members.len()
        invariant
            i <= members@.len(),
            endpoints@ == endpoint_items(members@, g, i as int),
        decreases members.len() - i,
    {
        let m: Member = members[i];
        if m.fabric.0 == g.fabric.0 && m.group.0 == g.group.0 {
            tlv::put_unsigned(&mut endpoints, Tag::Anonymous, m.endpoint as u64);
        } else {
            proof {
                assert(endpoints@ + Seq::<u8>::empty() =~= endpoints@);
            }
        }
        i = i + 1;
    }
    let mut body: Vec<u8> = Vec::new();
    tlv::put_unsigned(&mut body, Tag::Context(1), g.group.0 as u64);
    tlv::put_array(&mut body, Tag::Context(2), &endpoints);
    if let Some(s) = name {
        tlv::put_text(&mut body, Tag::Context(3), s);
    }
    tlv::put_unsigned(&mut body, Tag::Context(FABRIC_INDEX_FIELD), g.fabric.0 as u64);
    proof {
        assert(body@ =~= tlv::unsigned_bytes(Tag::Context(1), g.group.0 as u64) + tlv::array_bytes(
            Tag::Context(2),
            endpoints@,
        ) + (match name {
            Some(s) => tlv::text_bytes(Tag::Context(3), s@),
            None => Seq::empty(),
        }) + tlv::unsigned_bytes(Tag::Context(FABRIC_INDEX_FIELD), g.fabric.0 as u64));
    }
    tlv::put_structure(out, Tag::Anonymous, &body);
}

/// Octets, as a value.
pub open spec fn seen(o: Option<&[u8]>) -> Option<Seq<u8>> {
    match o {
        Some(s) => Some(s@),
        None => None,
    }
}

/// Checks the three keys of a set and their starts.
pub fn validate(
    first: (Option<&[u8]>, Option<u64>),
    second: (Option<&[u8]>, Option<u64>),
    third: (Option<&[u8]>, Option<u64>),
) -> (r: Result<(), Status>)
    ensures
        group::refusal(r) == validated(
            Epochs { first: (seen(first.0), first.1), second: (seen(second.0), second.1), third: (seen(third.0), third.1) },
        ),
{
    let start0: u64 = match first {
        (Some(key), Some(start)) => {
            if key.len() != SYMMETRIC_KEY_LENGTH_BYTES {
                return Err(Status::ConstraintError);
            }
            if start == 0 {
                return Err(Status::InvalidCommand);
            }
            start
        },
        _ => {
            return Err(Status::InvalidCommand);
        },
    };
    let mut latest: u64 = start0;
    let mut there: bool = true;
    match second {
        (None, None) => {
            there = false;
        },
        (Some(key), Some(start)) => {
            if key.len() != SYMMETRIC_KEY_LENGTH_BYTES {
                return Err(Status::ConstraintError);
            }
            if start <= latest {
                return Err(Status::InvalidCommand);
            }
            latest = start;
        },
        _ => {
            return Err(Status::InvalidCommand);
        },
    }
    match third {
        (None, None) => Ok(()),
        (Some(key), Some(start)) => {
            if !there {
                return Err(Status::InvalidCommand);
            }
            if key.len() != SYMMETRIC_KEY_LENGTH_BYTES {
                return Err(Status::ConstraintError);
            }
            if start <= latest {
                return Err(Status::InvalidCommand);
            }
            Ok(())
        },
        _ => Err(Status::InvalidCommand),
    }
}

fn put_epoch(list: &mut List<EpochKey, 3>, e: (Option<&[u8]>, Option<u64>))
    requires
        old(list).models().len() < 3,
        e.0 matches Some(k) ==> k@.len() == SYMMETRIC_KEY_LENGTH_BYTES,
    ensures
        final(list).models() == old(list).models() + one((seen(e.0), e.1)),
{
    if let (Some(key), Some(start_time_us)) = e {
        if let Some(key) = SymmetricKey::from_slice(key) {
            let _ = list.add(EpochKey { key, start_time_us });
            proof {
                assert(list.models() =~= old(list).models() + one((seen(e.0), e.1)));
            }
        }
    } else {
        proof {
            assert(list.models() =~= old(list).models() + one((seen(e.0), e.1)));
        }
    }
}

/// A key set, as a value.
pub open spec fn set_seen(r: Result<GroupKeySet, Status>) -> Result<KeySetModel, Status> {
    match r {
        Ok(set) => Ok(set@),
        Err(status) => Err(status),
    }
}

fn read_set(data: Option<&[u8]>, fabric: FabricIndex) -> (r: Result<GroupKeySet, Status>)
    ensures
        set_seen(r) == written_set(im::octets(data), fabric),
{
    let outer_schema: Vec<Field> = vec![Field(0, Kind::Structure, Need::Required)];
    proof {
        assert(outer_schema@ =~= seq![Field(0, Kind::Structure, Need::Required)]);
    }
    let outer: Fields = match fields::read_some(data, &outer_schema) {
        Err(status) => return Err(status),
        Ok(f) => f,
    };
    let start: usize = match outer.container(0) {
        None => return Err(Status::InvalidCommand),
        Some(start) => start,
    };
    let schema: Vec<Field> = vec![
        Field(0, Kind::U16, Need::Required),
        Field(1, Kind::Enum(1), Need::Required),
        Field(2, Kind::Octets, Need::Nullable),
        Field(3, Kind::U64, Need::Nullable),
        Field(4, Kind::Octets, Need::Nullable),
        Field(5, Kind::U64, Need::Nullable),
        Field(6, Kind::Octets, Need::Nullable),
        Field(7, Kind::U64, Need::Nullable),
        Field(8, Kind::U8, Need::Optional),
        Field(FABRIC_INDEX_FIELD, Kind::U8, Need::Optional),
    ];
    proof {
        assert(schema@ =~= set_schema());
    }
    let f: Fields = match fields::read_at(outer.data, start, &schema) {
        Err(status) => return Err(status),
        Ok(f) => f,
    };
    let id: KeySetId = match f.num16(0) {
        None => return Err(Status::InvalidCommand),
        Some(id) => id,
    };
    let first: (Option<&[u8]>, Option<u64>) = (f.octets(2), f.num(3));
    let second: (Option<&[u8]>, Option<u64>) = (f.octets(4), f.num(5));
    let third: (Option<&[u8]>, Option<u64>) = (f.octets(6), f.num(7));
    if let Err(status) = validate(first, second, third) {
        return Err(status);
    }
    let policy: GroupKeySecurityPolicy = match f.num(1) {
        Some(v) => if v == 0 {
            GroupKeySecurityPolicy::TrustFirst
        } else {
            GroupKeySecurityPolicy::CacheAndSync
        },
        None => GroupKeySecurityPolicy::CacheAndSync,
    };
    let mut epoch_keys: List<EpochKey, 3> = List::new();
    proof {
        assert(epoch_keys.models() =~= Seq::<EpochModel>::empty());
    }
    put_epoch(&mut epoch_keys, first);
    put_epoch(&mut epoch_keys, second);
    put_epoch(&mut epoch_keys, third);
    proof {
        assert(epoch_keys.models() =~= present(epochs_in(outer.data@, f.items@)));
    }
    Ok(GroupKeySet { fabric_index: fabric, id, policy, epoch_keys })
}

fn put_start(out: &mut Vec<u8>, set: &GroupKeySet, i: usize, tag: u8)
    ensures
        final(out)@ == old(out)@ + start_bytes(set@, i as int, tag),
{
    let keys: &[EpochKey] = set.epoch_keys.as_slice();
    let start: Option<u64> = if i < keys.len() {
        proof {
            assert(set@.epochs[i as int] == keys@[i as int]@);
        }
        Some(keys[i].start_time_us)
    } else {
        None
    };
    tlv::put_nullable(out, Tag::Context(tag), start);
}

/// The answer to `KeySetRead`: everything about a key set but the keys.
pub fn encode_set(set: &GroupKeySet, tag: Tag) -> (out: Vec<u8>)
    ensures
        out@ == read_response(set@, tag),
{
    let mut body: Vec<u8> = Vec::new();
    tlv::put_unsigned(&mut body, Tag::Context(0), set.id as u64);
    tlv::put_unsigned(&mut body, Tag::Context(1), set.policy.value() as u64);
    tlv::put_null(&mut body, Tag::Context(2));
    put_start(&mut body, set, 0, 3);
    tlv::put_null(&mut body, Tag::Context(4));
    put_start(&mut body, set, 1, 5);
    tlv::put_null(&mut body, Tag::Context(6));
    put_start(&mut body, set, 2, 7);
    tlv::put_unsigned(&mut body, Tag::Context(FABRIC_INDEX_FIELD), set.fabric_index.0 as u64);
    let mut outer: Vec<u8> = Vec::new();
    tlv::put_structure(&mut outer, Tag::Context(0), &body);
    let mut out: Vec<u8> = Vec::new();
    tlv::put_structure(&mut out, tag, &outer);
    proof {
        let m = set@;
        let id = tlv::unsigned_bytes(Tag::Context(0), m.id as u64);
        assert(Seq::<u8>::empty() + id =~= id);
        assert(outer@ =~= set_bytes(m, Tag::Context(0)));
        assert(out@ =~= read_response(m, tag));
    }
    out
}

fn encode_indices(sets: &[GroupKeySet], fabric: FabricIndex, tag: Tag) -> (out: Vec<u8>)
    ensures
        out@ == indices_response(bounded::models(sets@), fabric, tag),
{
    let ghost models = bounded::models(sets@);
    let mut items: Vec<u8> = Vec::new();
    let mut i: usize = 0;
    while i < sets.len()
        invariant
            i <= sets@.len(),
            models == bounded::models(sets@),
            items@ == index_items(models, fabric, i as int),
        decreases sets.len() - i,
    {
        proof {
            assert(models[i as int] == sets@[i as int]@);
        }
        if sets[i].fabric_index.0 == fabric.0 {
            tlv::put_unsigned(&mut items, Tag::Anonymous, sets[i].id as u64);
        } else {
            proof {
                assert(items@ + Seq::<u8>::empty() =~= items@);
            }
        }
        i = i + 1;
    }
    let mut body: Vec<u8> = Vec::new();
    tlv::put_array(&mut body, Tag::Context(0), &items);
    let mut out: Vec<u8> = Vec::new();
    tlv::put_structure(&mut out, tag, &body);
    proof {
        assert(body@ =~= tlv::array_bytes(Tag::Context(0), items@));
        assert(out@ =~= indices_response(models, fabric, tag));
    }
    out
}

fn encode_map(map: &[MapEntry], ctx: &InteractionContext, tag: Tag) -> (out: Vec<u8>)
    ensures
        out@ == tlv::array_bytes(tag, map_items(map@, *ctx, map@.len() as int)),
{
    let mut items: Vec<u8> = Vec::new();
    let mut i: usize = 0;
    while i < map.len()
        invariant
            i <= map@.len(),
            items@ == map_items(map@, *ctx, i as int),
        decreases map.len() - i,
    {
        let e: MapEntry = map[i];
        if ctx.visible(e.fabric) {
            let mut body: Vec<u8> = Vec::new();
            tlv::put_unsigned(&mut body, Tag::Context(1), e.group.0 as u64);
            tlv::put_unsigned(&mut body, Tag::Context(2), e.key_set as u64);
            tlv::put_unsigned(&mut body, Tag::Context(FABRIC_INDEX_FIELD), e.fabric.0 as u64);
            proof {
                assert(body@ =~= tlv::unsigned_bytes(Tag::Context(1), e.group.0 as u64) + tlv::unsigned_bytes(
                    Tag::Context(2),
                    e.key_set as u64,
                ) + tlv::unsigned_bytes(Tag::Context(FABRIC_INDEX_FIELD), e.fabric.0 as u64));
            }
            tlv::put_structure(&mut items, Tag::Anonymous, &body);
        } else {
            proof {
                assert(items@ + Seq::<u8>::empty() =~= items@);
            }
        }
        i = i + 1;
    }
    let mut out: Vec<u8> = Vec::new();
    tlv::put_array(&mut out, tag, &items);
    proof {
        assert(out@ =~= tlv::array_bytes(tag, items@));
    }
    out
}

fn read_id(data: Option<&[u8]>) -> (r: Result<KeySetId, Status>)
    ensures
        match fields::decode_some(im::octets(data), id_schema()) {
            Err(status) => r == Err::<KeySetId, Status>(status),
            Ok(items) => match fields::num16(items, 0) {
                None => r == Err::<KeySetId, Status>(Status::InvalidCommand),
                Some(id) => r == Ok::<KeySetId, Status>(id),
            },
        },
{
    let schema: Vec<Field> = vec![Field(0, Kind::U16, Need::Required)];
    proof {
        assert(schema@ =~= id_schema());
    }
    match fields::read_some(data, &schema) {
        Err(status) => Err(status),
        Ok(f) => match f.num16(0) {
            None => Err(Status::InvalidCommand),
            Some(id) => Ok(id),
        },
    }
}

/// The cluster's definition.
pub open spec fn defined() -> DefinitionModel {
    DefinitionModel {
        id: ID,
        revision: REVISION,
        features: 0x01,
        attributes: seq![
            conformance::writes(GROUP_KEY_MAP, Privilege::Manage, Conformance::Mandatory),
            conformance::reads(GROUP_TABLE, Conformance::Mandatory),
            conformance::reads(MAX_GROUPS_PER_FABRIC, Conformance::Mandatory),
            conformance::reads(MAX_GROUP_KEYS_PER_FABRIC, Conformance::Mandatory),
        ],
        commands: seq![
            conformance::invokes_with(
                KEY_SET_WRITE,
                Privilege::Administer,
                dm::scoped_access(),
                None,
                Conformance::Mandatory,
            ),
            conformance::invokes_with(
                KEY_SET_READ,
                Privilege::Administer,
                dm::scoped_access(),
                Some(KEY_SET_READ_RESPONSE),
                Conformance::Mandatory,
            ),
            conformance::invokes_with(
                KEY_SET_REMOVE,
                Privilege::Administer,
                dm::scoped_access(),
                None,
                Conformance::Mandatory,
            ),
            conformance::invokes_with(
                KEY_SET_READ_ALL_INDICES,
                Privilege::Administer,
                dm::scoped_access(),
                Some(KEY_SET_READ_ALL_INDICES_RESPONSE),
                Conformance::Mandatory,
            ),
        ],
        generated: seq![
            (KEY_SET_READ_RESPONSE, Conformance::Mandatory),
            (KEY_SET_READ_ALL_INDICES_RESPONSE, Conformance::Mandatory),
        ],
        events: Seq::empty(),
    }
}

/// The cluster's definition.
pub fn definition() -> (d: Definition)
    ensures
        d@ == defined(),
{
    let d: Definition = Definition {
        id: ID,
        revision: REVISION,
        features: 0x01,
        attributes: vec![
            conformance::writable(GROUP_KEY_MAP, Privilege::Manage, Conformance::Mandatory),
            conformance::readable(GROUP_TABLE, Conformance::Mandatory),
            conformance::readable(MAX_GROUPS_PER_FABRIC, Conformance::Mandatory),
            conformance::readable(MAX_GROUP_KEYS_PER_FABRIC, Conformance::Mandatory),
        ],
        commands: vec![
            conformance::invocable_with(
                KEY_SET_WRITE,
                Privilege::Administer,
                AccessQualities::fabric_scoped(),
                None,
                Conformance::Mandatory,
            ),
            conformance::invocable_with(
                KEY_SET_READ,
                Privilege::Administer,
                AccessQualities::fabric_scoped(),
                Some(KEY_SET_READ_RESPONSE),
                Conformance::Mandatory,
            ),
            conformance::invocable_with(
                KEY_SET_REMOVE,
                Privilege::Administer,
                AccessQualities::fabric_scoped(),
                None,
                Conformance::Mandatory,
            ),
            conformance::invocable_with(
                KEY_SET_READ_ALL_INDICES,
                Privilege::Administer,
                AccessQualities::fabric_scoped(),
                Some(KEY_SET_READ_ALL_INDICES_RESPONSE),
                Conformance::Mandatory,
            ),
        ],
        generated: vec![
            (KEY_SET_READ_RESPONSE, Conformance::Mandatory),
            (KEY_SET_READ_ALL_INDICES_RESPONSE, Conformance::Mandatory),
        ],
        events: Vec::new(),
    };
    proof {
        assert(d@.attributes =~= defined().attributes);
        assert(d@.commands =~= defined().commands);
        assert(d@.generated =~= defined().generated);
    }
    d
}

impl<'a, T: GroupTable, const K: usize, const M: usize> Cluster for GroupKeyManagement<'a, T, K, M> {
    const ID: ClusterId = ID;
}

impl<'a, T: GroupTable, const K: usize, const M: usize> ClusterHandler for GroupKeyManagement<'a, T, K, M> {
    open spec fn answers(&self, resolved: Resolved, ctx: InteractionContext, tag: Tag, a: ReadAnswer) -> bool {
        Self::reads(&self.keys, self.table, resolved.attribute, ctx, tag, a)
    }

    open spec fn writes(
        before: &Self,
        after: &Self,
        resolved: Resolved,
        data: Seq<u8>,
        op: WriteOp,
        ctx: InteractionContext,
        r: Result<(), Status>,
    ) -> bool {
        &&& after.table == before.table
        &&& after.keys.limits() == before.keys.limits()
        &&& (after.keys@, group::refusal(r)) == map_written(
            before.keys@,
            before.keys.limits(),
            resolved.attribute,
            data,
            op,
            ctx,
        )
    }

    open spec fn invokes(
        before: &Self,
        after: &Self,
        resolved: ResolvedCommand,
        fields: Option<Seq<u8>>,
        ctx: InteractionContext,
        tag: Tag,
        a: InvokeAnswer,
    ) -> bool {
        &&& after.table == before.table
        &&& after.keys.limits() == before.keys.limits()
        &&& (after.keys@, a) == commanded(before.keys@, before.keys.limits(), resolved.command, fields, ctx, tag)
    }

    open spec fn outlives(before: &Self, after: &Self, event: Lifecycle) -> bool {
        let Lifecycle::FabricRemoved(fabric) = event;
        &&& after.table == before.table
        &&& after.keys.limits() == before.keys.limits()
        &&& after.keys@ == group::fabric_removed(before.keys@, fabric)
    }

    open spec fn unfit(&self, resolved: ResolvedCommand) -> Status {
        Status::Failure
    }

    fn answer(&self, resolved: &Resolved, ctx: &InteractionContext, tag: Tag) -> (a: Result<Vec<u8>, Status>) {
        Self::encode_attribute(&self.keys, self.table, resolved.attribute, ctx, tag)
    }

    fn write(&mut self, resolved: &Resolved, data: &[u8], op: WriteOp, ctx: &InteractionContext) -> (r: Result<(), Status>) {
        if resolved.attribute != GROUP_KEY_MAP {
            return Err(Status::UnsupportedWrite);
        }
        let fabric: FabricIndex = match ctx.fabric() {
            None => return Err(Status::UnsupportedAccess),
            Some(fabric) => fabric,
        };
        let e: Element = match tlv::read_element(data, 0) {
            None => return Err(Status::InvalidAction),
            Some((e, _)) => e,
        };
        proof {
            self.keys.lemma_limits();
        }
        match op {
            WriteOp::Replace => match e.value {
                Value::Container(ContainerKind::Array, start) => match fields::read_list::<WrittenEntry>(
                    data,
                    start,
                    M,
                    Status::ResourceExhausted,
                ) {
                    Err(status) => Err(status),
                    Ok(entries) => {
                        let mut list: Vec<(GroupId, KeySetId)> = Vec::new();
                        let mut i: usize = 0;
                        while i < entries.len()
                            invariant
                                i <= entries@.len(),
                                list@ == pairs(entries@).take(i as int),
                            decreases entries.len() - i,
                        {
                            list.push((entries[i].group, entries[i].key_set));
                            i = i + 1;
                            proof {
                                assert(pairs(entries@).take(i as int) =~= pairs(entries@).take(i - 1).push(
                                    pairs(entries@)[i - 1],
                                ));
                            }
                        }
                        proof {
                            assert(pairs(entries@).take(i as int) =~= pairs(entries@));
                        }
                        self.keys.replace_map(fabric, &list)
                    },
                },
                _ => Err(Status::InvalidAction),
            },
            WriteOp::Append => match WrittenEntry::from_tlv(data, &e) {
                Err(status) => Err(status),
                Ok(entry) => self.keys.map_group(fabric, entry.group, entry.key_set),
            },
        }
    }

    fn perform(
        &mut self,
        resolved: &ResolvedCommand,
        fields: Option<&[u8]>,
        ctx: &InteractionContext,
        tag: Tag,
    ) -> (a: Result<Reply, StatusIb>) {
        let fabric: FabricIndex = match ctx.fabric() {
            None => return im::refuse(Status::UnsupportedAccess),
            Some(fabric) => fabric,
        };
        match resolved.command {
            KEY_SET_WRITE => self.write_command(fields, fabric),
            KEY_SET_READ => match read_id(fields) {
                Err(status) => im::refuse(status),
                Ok(id) => match self.keys.key_set(fabric, id) {
                    None => im::refuse(Status::NotFound),
                    Some(set) => im::respond(KEY_SET_READ_RESPONSE, encode_set(set, tag)),
                },
            },
            KEY_SET_REMOVE => match read_id(fields) {
                Err(status) => im::refuse(status),
                Ok(id) => match self.keys.remove_key_set(fabric, id) {
                    Err(status) => im::refuse(status),
                    Ok(_) => im::no_response(),
                },
            },
            KEY_SET_READ_ALL_INDICES => im::respond(
                KEY_SET_READ_ALL_INDICES_RESPONSE,
                encode_indices(self.keys.key_sets(), fabric, tag),
            ),
            _ => im::refuse(Status::UnsupportedCommand),
        }
    }

    fn on_lifecycle(&mut self, event: Lifecycle) {
        let Lifecycle::FabricRemoved(fabric) = event;
        self.keys.remove_fabric(fabric);
    }

    fn unfit_status(&self, resolved: &ResolvedCommand) -> (s: Status) {
        Status::Failure
    }
}

/// What is read of a key set does not depend on its keys: two sets that differ in nothing else are
/// answered alike.
pub proof fn law_keys_never_come_back(a: KeySetModel, b: KeySetModel, tag: Tag)
    requires
        a.fabric == b.fabric,
        a.id == b.id,
        a.policy == b.policy,
        a.epochs.len() == b.epochs.len(),
        forall|i: int| 0 <= i < a.epochs.len() ==> (#[trigger] a.epochs[i]).start == b.epochs[i].start,
    ensures
        read_response(a, tag) == read_response(b, tag),
{
}

/// A key set that is accepted has a first key, no gap, and starts that only get later.
pub proof fn law_accepted_keys_are_a_rotation(e: Epochs)
    requires
        validated(e) is None,
    ensures
        1 <= present(e).len() <= 3,
        present(e)[0].start > 0,
        forall|i: int, j: int| 0 <= i < j < present(e).len() ==> present(e)[i].start < present(e)[j].start,
        forall|i: int| 0 <= i < present(e).len() ==> (#[trigger] present(e)[i]).key.len() == SYMMETRIC_KEY_LENGTH_BYTES,
        e.third.0 is Some ==> e.second.0 is Some,
{
    let p = present(e);
    assert(p =~= one(e.first) + one(e.second) + one(e.third));
}

/// No command of one fabric reads, changes or removes a key set of another.
pub proof fn law_commands_stay_in_their_fabric(
    k: KeysModel,
    l: Limits,
    command: CommandId,
    data: Option<Seq<u8>>,
    ctx: InteractionContext,
    tag: Tag,
    other: FabricIndex,
)
    requires
        ctx.accessing() != Some(other),
    ensures
        commanded(k, l, command, data, ctx, tag).0.sets.filter(group::set_of_fabric(other)) == k.sets.filter(
            group::set_of_fabric(other),
        ),
{
    if ctx.accessing() is Some {
        let fabric = ctx.accessing()->Some_0;
        let p = group::set_of_fabric(other);
        if command == KEY_SET_WRITE {
            if written_set(data, fabric) is Ok {
                let set = written_set(data, fabric)->Ok_0;
                bounded::lemma_first(k.sets, group::set_is(set.fabric, set.id));
                match bounded::first(k.sets, group::set_is(set.fabric, set.id)) {
                    Some(i) => bounded::lemma_filter_update(k.sets, i, set, p),
                    None => bounded::lemma_filter_push(k.sets, set, p),
                }
            }
        } else if command == KEY_SET_REMOVE {
            if fields::decode_some(data, id_schema()) is Ok {
                let items = fields::decode_some(data, id_schema())->Ok_0;
                if fields::num16(items, 0) is Some {
                    let id = fields::num16(items, 0)->Some_0;
                    bounded::lemma_first(k.sets, group::set_is(fabric, id));
                    if let Some(i) = bounded::first(k.sets, group::set_is(fabric, id)) {
                        bounded::lemma_filter_remove(k.sets, i, p);
                    }
                }
            }
        }
    }
}

/// The elements of an entry of the map meet its schema and give the entry back.
proof fn lemma_entry_elements(items: Seq<Element>, e: MapEntry)
    requires
        items == seq![
            Element { context: Some(1u8), value: Value::Unsigned(e.group.0 as u64) },
            Element { context: Some(2u8), value: Value::Unsigned(e.key_set as u64) },
            Element { context: Some(FABRIC_INDEX_FIELD), value: Value::Unsigned(e.fabric.0 as u64) },
        ],
    ensures
        fields::check(items, true, entry_schema()) is None,
        fields::num16(items, 1) == Some(e.group.0),
        fields::num16(items, 2) == Some(e.key_set),
{
    bounded::lemma_first(items, fields::tagged(1));
    bounded::lemma_first(items, fields::tagged(2));
    bounded::lemma_first(items, fields::tagged(FABRIC_INDEX_FIELD));
    assert(fields::tagged(1)(items[0]) && fields::tagged(2)(items[1]) && fields::tagged(FABRIC_INDEX_FIELD)(items[2]));
    assert(!fields::tagged(2)(items[0]) && !fields::tagged(FABRIC_INDEX_FIELD)(items[0]));
    assert(!fields::tagged(FABRIC_INDEX_FIELD)(items[1]) && !fields::tagged(1)(items[1]));
    reveal_with_fuel(fields::field_of, 4);
    reveal_with_fuel(fields::first_fault, 4);
    reveal_with_fuel(fields::all_there, 4);
}

/// An entry of the map that a read gave is the same entry where it is written, wherever it stands in
/// data that memory can hold.
pub proof fn law_a_map_entry_round_trip(b: Seq<u8>, pos: int, e: MapEntry)
    requires
        tlv::stands(b, pos, entry_bytes(e)),
        b.len() <= usize::MAX,
    ensures
        tlv::whole(b, pos, entry_bytes(e)),
        tlv::element_at(b, pos) matches Some((x, _)) && WrittenEntry::of(b, x) == Ok::<WrittenEntry, Status>(
            WrittenEntry { group: e.group, key_set: e.key_set },
        ),
{
    let all = seq![
        (1u8, Some(e.group.0 as u64)),
        (2u8, Some(e.key_set as u64)),
        (FABRIC_INDEX_FIELD, Some(e.fabric.0 as u64)),
    ];
    let two = all.drop_last();
    let one = two.drop_last();
    assert(one.drop_last() =~= Seq::<(u8, Option<u64>)>::empty());
    reveal_with_fuel(tlv::fields_bytes, 4);
    reveal_with_fuel(tlv::fields_elements, 4);
    let x1 = tlv::unsigned_bytes(Tag::Context(1), e.group.0 as u64);
    assert(Seq::<u8>::empty() + x1 =~= x1);
    tlv::lemma_structure_of_fields(b, pos, Tag::Anonymous, all);
    let items = tlv::scan(b, pos + 1).items;
    assert(items =~= seq![
        Element { context: Some(1u8), value: Value::Unsigned(e.group.0 as u64) },
        Element { context: Some(2u8), value: Value::Unsigned(e.key_set as u64) },
        Element { context: Some(FABRIC_INDEX_FIELD), value: Value::Unsigned(e.fabric.0 as u64) },
    ]);
    lemma_entry_elements(items, e);
}

/// What a fabric wrote into the map is what the map then has for it, and nothing of it is another's.
pub proof fn law_a_map_write_is_read_back(
    k: KeysModel,
    l: Limits,
    data: Seq<u8>,
    ctx: InteractionContext,
    fabric: FabricIndex,
)
    requires
        ctx.accessing() == Some(fabric),
        map_written(k, l, GROUP_KEY_MAP, data, WriteOp::Replace, ctx).1 is None,
    ensures
        ({
            let after = map_written(k, l, GROUP_KEY_MAP, data, WriteOp::Replace, ctx).0;
            &&& tlv::element_at(data, 0) matches Some((e, _)) && (fields::list_of::<WrittenEntry>(
                data,
                e.content(),
                l.groups as int,
                Status::ResourceExhausted,
            ) matches Ok(entries) && after.map.filter(group::entry_of_fabric(fabric)) == group::entries_for(
                fabric,
                pairs(entries),
            ))
            &&& after.map.filter(group::entry_not_of_fabric(fabric)) == k.map.filter(group::entry_not_of_fabric(fabric))
            &&& after.sets == k.sets
        }),
{
    let (e, _) = tlv::element_at(data, 0)->Some_0;
    let entries = fields::list_of::<WrittenEntry>(data, e.content(), l.groups as int, Status::ResourceExhausted)->Ok_0;
    let others = k.map.filter(group::entry_not_of_fabric(fabric));
    let new = group::entries_for(fabric, pairs(entries));
    bounded::lemma_filter(k.map, group::entry_not_of_fabric(fabric));
    Seq::filter_distributes_over_add(others, new, group::entry_of_fabric(fabric));
    Seq::filter_distributes_over_add(others, new, group::entry_not_of_fabric(fabric));
    bounded::lemma_filter_none(others, group::entry_of_fabric(fabric));
    bounded::lemma_filter_all(new, group::entry_of_fabric(fabric));
    bounded::lemma_filter_all(others, group::entry_not_of_fabric(fabric));
    bounded::lemma_filter_none(new, group::entry_not_of_fabric(fabric));
    assert(Seq::<MapEntry>::empty() + new =~= new);
    assert(others + Seq::<MapEntry>::empty() =~= others);
}

/// What the first memberships put in an endpoint list stays in it.
proof fn lemma_endpoints_grow(members: Seq<Member>, g: GroupOf, m: int, n: int)
    requires
        m <= n,
    ensures
        endpoint_items(members, g, m).len() <= endpoint_items(members, g, n).len(),
    decreases n,
{
    if m < n && n > 0 {
        lemma_endpoints_grow(members, g, m, n - 1);
    }
}

/// Each group in the table is visible to the reader, stands there once, and has an endpoint.
pub proof fn law_no_listed_group_is_empty(members: Seq<Member>, ctx: InteractionContext, cap: nat, n: int)
    requires
        n <= members.len(),
    ensures
        ({
            let groups = groups_in(members, ctx, cap, n);
            &&& groups.len() <= cap
            &&& forall|i: int, j: int| 0 <= i < j < groups.len() ==> #[trigger] groups[i] != #[trigger] groups[j]
            &&& forall|i: int|
                0 <= i < groups.len() ==> ctx.sees((#[trigger] groups[i]).fabric) && endpoint_items(
                    members,
                    groups[i],
                    members.len() as int,
                ).len() > 0
        }),
    decreases n,
{
    if n > 0 {
        law_no_listed_group_is_empty(members, ctx, cap, n - 1);
        let before = groups_in(members, ctx, cap, n - 1);
        let m = members[n - 1];
        let g = GroupOf { fabric: m.fabric, group: m.group };
        bounded::lemma_first(before, same_group(g));
        if ctx.sees(m.fabric) && bounded::first(before, same_group(g)) is None && before.len() < cap {
            assert forall|i: int| 0 <= i < before.len() implies #[trigger] before[i] != g by {
                assert(!same_group(g)(before[i]));
            }
            assert(tlv::unsigned_bytes(Tag::Anonymous, m.endpoint as u64).len() > 0);
            assert(endpoint_items(members, g, n).len() > 0);
            lemma_endpoints_grow(members, g, n, members.len() as int);
        }
    }
}

/// `KeySetWrite` that succeeds leaves the accessing fabric the key set that it names, with the policy that
/// it gives and with every key that it carries: as many as there are keys that are not null, the octets of
/// each and its start in their order. Every other key set and the map stay as they are.
pub proof fn law_every_key_is_stored<'a, T: GroupTable, const K: usize, const M: usize>(
    before: GroupKeyManagement<'a, T, K, M>,
    after: GroupKeyManagement<'a, T, K, M>,
    resolved: ResolvedCommand,
    b: Seq<u8>,
    outer: Seq<Element>,
    start: usize,
    items: Seq<Element>,
    fabric: FabricIndex,
    ctx: InteractionContext,
    tag: Tag,
    a: InvokeAnswer,
)
    requires
        GroupKeyManagement::invokes(&before, &after, resolved, Some(b), ctx, tag, a),
        resolved.command == 0x00,
        ctx.accessing() == Some(fabric),
        fields::decode(b, seq![Field(0, Kind::Structure, Need::Required)]) == Ok::<Seq<Element>, Status>(outer),
        fields::container(outer, 0) == Some(start),
        fields::decode_at(
            b,
            start as int,
            seq![
                Field(0, Kind::U16, Need::Required),
                Field(1, Kind::Enum(1), Need::Required),
                Field(2, Kind::Octets, Need::Nullable),
                Field(3, Kind::U64, Need::Nullable),
                Field(4, Kind::Octets, Need::Nullable),
                Field(5, Kind::U64, Need::Nullable),
                Field(6, Kind::Octets, Need::Nullable),
                Field(7, Kind::U64, Need::Nullable),
                Field(8, Kind::U8, Need::Optional),
                Field(254, Kind::U8, Need::Optional),
            ],
        ) == Ok::<Seq<Element>, Status>(items),
    ensures
        a == im::done() || (a is Err && after.keys@ == before.keys@),
        a == im::done() ==> exists|i: int|
            {
                let set = #[trigger] after.keys@.sets[i];
                let was = before.keys@.sets;
                let carried = (if fields::octets(b, items, 2) is Some { 1int } else { 0 }) + (if fields::octets(b, items, 4)
                    is Some { 1int } else { 0 }) + (if fields::octets(b, items, 6) is Some { 1int } else { 0 });
                &&& 0 <= i < after.keys@.sets.len()
                &&& set.fabric == fabric
                &&& fields::num(items, 0) == Some(set.id as u64)
                &&& (set.policy is TrustFirst) == (fields::num(items, 1) == Some(0u64))
                &&& set.epochs.len() == carried
                &&& 1 <= carried <= 3
                &&& forall|n: int|
                    0 <= n < set.epochs.len() ==> fields::octets(b, items, (2 + 2 * n) as u8) == Some(
                        (#[trigger] set.epochs[n]).key,
                    ) && fields::num(items, (3 + 2 * n) as u8) == Some(set.epochs[n].start) && set.epochs[n].key.len() == 16
                &&& after.keys@.map == before.keys@.map
                &&& after.keys@.sets.len() == was.len() || (after.keys@.sets.len() == was.len() + 1 && i == was.len())
                &&& i < was.len() ==> was[i].fabric == fabric && was[i].id == set.id
                &&& forall|j: int| 0 <= j < was.len() && j != i ==> after.keys@.sets[j] == was[j]
            },
{
    assert(set_schema() =~= seq![
        Field(0, Kind::U16, Need::Required),
        Field(1, Kind::Enum(1), Need::Required),
        Field(2, Kind::Octets, Need::Nullable),
        Field(3, Kind::U64, Need::Nullable),
        Field(4, Kind::Octets, Need::Nullable),
        Field(5, Kind::U64, Need::Nullable),
        Field(6, Kind::Octets, Need::Nullable),
        Field(7, Kind::U64, Need::Nullable),
        Field(8, Kind::U8, Need::Optional),
        Field(254, Kind::U8, Need::Optional),
    ]);
    if a == im::done() {
        let set = written_set(Some(b), fabric)->Ok_0;
        let e = epochs_in(b, items);
        law_accepted_keys_are_a_rotation(e);
        lemma_present(e);
        assert forall|n: int| 0 <= n < set.epochs.len() implies fields::octets(b, items, (2 + 2 * n) as u8) == Some(
            (#[trigger] set.epochs[n]).key,
        ) && fields::num(items, (3 + 2 * n) as u8) == Some(set.epochs[n].start) && set.epochs[n].key.len() == 16 by {
            assert(n == 0 || n == 1 || n == 2);
        }
        let was = before.keys@.sets;
        bounded::lemma_first_from(was, group::set_is(fabric, set.id), 0);
        match bounded::first(was, group::set_is(fabric, set.id)) {
            Some(i) => {
                assert(group::set_is(fabric, set.id)(was[i]));
                assert(after.keys@.sets[i] == set);
            },
            None => {
                assert(after.keys@.sets[was.len() as int] == set);
            },
        }
    }
}

/// The keys of an accepted set are those that are there, one after the other.
proof fn lemma_present(e: Epochs)
    requires
        validated(e) is None,
    ensures
        ({
            let p = present(e);
            &&& p.len() == 1 + (if e.second.0 is Some { 1int } else { 0 }) + (if e.third.0 is Some { 1int } else { 0 })
            &&& e.first.0 == Some(p[0].key) && e.first.1 == Some(p[0].start)
            &&& p.len() >= 2 ==> e.second.0 == Some(p[1].key) && e.second.1 == Some(p[1].start)
            &&& p.len() >= 3 ==> e.third.0 == Some(p[2].key) && e.third.1 == Some(p[2].start)
        }),
{
}

/// The elements that a reader finds in a key set: its number, its policy, no key, and the start of each
/// key that there is.
pub open spec fn shown_set(set: KeySetModel) -> Seq<Element> {
    let start = |n: int| if n < set.epochs.len() { Value::Unsigned(set.epochs[n].start) } else { Value::Null };
    seq![
        Element { context: Some(0), value: Value::Unsigned(set.id as u64) },
        Element { context: Some(1), value: Value::Unsigned(if set.policy is TrustFirst { 0 } else { 1 }) },
        Element { context: Some(2), value: Value::Null },
        Element { context: Some(3), value: start(0) },
        Element { context: Some(4), value: Value::Null },
        Element { context: Some(5), value: start(1) },
        Element { context: Some(6), value: Value::Null },
        Element { context: Some(7), value: start(2) },
        Element { context: Some(254), value: Value::Unsigned(set.fabric.0 as u64) },
    ]
}

spec fn set_pieces(set: KeySetModel) -> Seq<Seq<u8>> {
    seq![
        tlv::unsigned_bytes(Tag::Context(0), set.id as u64),
        tlv::unsigned_bytes(Tag::Context(1), group::policy_value(set.policy) as u64),
        tlv::null_bytes(Tag::Context(2)),
        start_bytes(set, 0, 3),
        tlv::null_bytes(Tag::Context(4)),
        start_bytes(set, 1, 5),
        tlv::null_bytes(Tag::Context(6)),
        start_bytes(set, 2, 7),
        tlv::unsigned_bytes(Tag::Context(254), set.fabric.0 as u64),
    ]
}

/// A piece of a key set is one element, and which.
proof fn lemma_set_piece(b: Seq<u8>, p: int, set: KeySetModel, i: int)
    requires
        0 <= i < 9,
        tlv::stands(b, p, set_pieces(set)[i]),
    ensures
        tlv::whole(b, p, set_pieces(set)[i]),
        tlv::element_at(b, p) matches Some((e, _)) && e == shown_set(set)[i],
{
    let s = |n: int| if n < set.epochs.len() { Some(set.epochs[n].start) } else { None::<u64> };
    if i == 0 {
        tlv::lemma_whole_unsigned(b, p, Tag::Context(0), set.id as u64);
    } else if i == 1 {
        tlv::lemma_whole_unsigned(b, p, Tag::Context(1), group::policy_value(set.policy) as u64);
    } else if i == 2 {
        tlv::lemma_whole_nullable(b, p, Tag::Context(2), None);
    } else if i == 3 {
        tlv::lemma_whole_nullable(b, p, Tag::Context(3), s(0));
    } else if i == 4 {
        tlv::lemma_whole_nullable(b, p, Tag::Context(4), None);
    } else if i == 5 {
        tlv::lemma_whole_nullable(b, p, Tag::Context(5), s(1));
    } else if i == 6 {
        tlv::lemma_whole_nullable(b, p, Tag::Context(6), None);
    } else if i == 7 {
        tlv::lemma_whole_nullable(b, p, Tag::Context(7), s(2));
    } else {
        tlv::lemma_whole_unsigned(b, p, Tag::Context(254), set.fabric.0 as u64);
    }
}

/// A key set that stands somewhere is read there as it is shown.
proof fn lemma_set_shown(b: Seq<u8>, pos: int, set: KeySetModel)
    requires
        tlv::stands(b, pos, set_bytes(set, Tag::Context(0))),
        b.len() <= usize::MAX,
    ensures
        ({
            let at = pos + tlv::header(Tag::Context(0), 0x15).len();
            let e = Element { context: Some(0), value: Value::Container(ContainerKind::Structure, at as usize) };
            &&& tlv::element_at(b, pos) == Some((e, at))
            &&& e.content() == at
            &&& tlv::scan(b, at).items == shown_set(set)
            &&& tlv::scan(b, at).complete
            &&& tlv::whole(b, pos, set_bytes(set, Tag::Context(0)))
        }),
{
    let pieces = set_pieces(set);
    let f = tlv::itself();
    reveal_with_fuel(tlv::concat, 10);
    let content = tlv::concat(pieces, f);
    assert(pieces.drop_last().drop_last().drop_last().drop_last().drop_last().drop_last().drop_last().drop_last().drop_last()
        =~= Seq::empty());
    assert(set_bytes(set, Tag::Context(0)) =~= tlv::structure_bytes(Tag::Context(0), content));
    assert forall|i: int, p: int| 0 <= i < pieces.len() && #[trigger] tlv::stands(b, p, pieces[i]) implies tlv::whole(
        b,
        p,
        pieces[i],
    ) by {
        lemma_set_piece(b, p, set, i);
    }
    tlv::lemma_structure_of_pieces(b, pos, Tag::Context(0), pieces);
    let at = pos + tlv::header(Tag::Context(0), 0x15).len();
    tlv::lemma_concat_elements_len(b, at, pieces, f);
    assert forall|i: int| 0 <= i < 9 implies tlv::concat_elements(b, at, pieces, f)[i] == shown_set(set)[i] by {
        tlv::lemma_concat_element(b, at, pieces, f, i);
        lemma_set_piece(b, at + tlv::concat(pieces.take(i), f).len(), set, i);
    }
    assert(tlv::scan(b, at).items =~= shown_set(set));
}

/// `KeySetRead` gives back the key set that was written last under that number: its policy and the start
/// of each of its keys, never a key; where the fabric has none of that number, it is not found.
pub proof fn law_a_key_set_is_read_back<'a, T: GroupTable, const K: usize, const M: usize>(
    before: GroupKeyManagement<'a, T, K, M>,
    after: GroupKeyManagement<'a, T, K, M>,
    resolved: ResolvedCommand,
    b: Seq<u8>,
    items: Seq<Element>,
    fabric: FabricIndex,
    ctx: InteractionContext,
    tag: Tag,
    a: InvokeAnswer,
)
    requires
        GroupKeyManagement::invokes(&before, &after, resolved, Some(b), ctx, tag, a),
        resolved.command == 0x01,
        ctx.accessing() == Some(fabric),
        fields::decode(b, seq![Field(0, Kind::U16, Need::Required)]) == Ok::<Seq<Element>, Status>(items),
    ensures
        after.keys@ == before.keys@,
        match a {
            Ok((command, body)) => {
                &&& command == Some(0x02u32)
                &&& exists|i: int|
                    {
                        let set = #[trigger] before.keys@.sets[i];
                        &&& 0 <= i < before.keys@.sets.len()
                        &&& set.fabric == fabric
                        &&& fields::num(items, 0) == Some(set.id as u64)
                        &&& body.len() <= usize::MAX ==> (tlv::element_at(body, 0) matches Some((e, _)) && e.is_structure()
                            && tlv::scan(body, e.content()).items.len() == 1
                            && tlv::scan(body, e.content()).items[0].context == Some(0u8)
                            && tlv::scan(body, e.content()).items[0].is_structure()
                            && tlv::scan(body, tlv::scan(body, e.content()).items[0].content()).items == shown_set(set))
                    }
            },
            Err(_) => forall|i: int|
                0 <= i < before.keys@.sets.len() && (#[trigger] before.keys@.sets[i]).fabric == fabric ==> fields::num(items, 0)
                    != Some(before.keys@.sets[i].id as u64),
        },
{
    assert(id_schema() =~= seq![Field(0, Kind::U16, Need::Required)]);
    let sets = before.keys@.sets;
    if fields::num16(items, 0) is Some {
        let id = fields::num16(items, 0)->Some_0;
        let mine = group::set_is(fabric, id);
        bounded::lemma_first_from(sets, mine, 0);
        match bounded::first(sets, mine) {
            Some(i) => {
                assert(mine(sets[i]));
                let set = before.keys@.sets[i];
                let body = a->Ok_0.1;
                let x = set_bytes(set, Tag::Context(0));
                if body.len() <= usize::MAX {
                    tlv::lemma_stands_whole(body);
                    let at = tlv::header(tag, 0x15).len() as int;
                    assert(body =~= tlv::header(tag, 0x15) + (x + seq![0x18u8]));
                    tlv::lemma_stands_both(body, 0, tlv::header(tag, 0x15), x + seq![0x18u8]);
                    tlv::lemma_stands_both(body, at, x, seq![0x18u8]);
                    lemma_set_shown(body, at, set);
                    tlv::law_container_round_trip(body, 0, tag, ContainerKind::Structure, x);
                    let (e, next) = tlv::element_at(body, at)->Some_0;
                    tlv::lemma_scan_step(body, at, e, next, at + x.len());
                    tlv::lemma_scan_end(body, at + x.len());
                    assert(tlv::scan(body, at).items =~= seq![e]);
                }
            },
            None => {
                assert forall|i: int| 0 <= i < sets.len() && (#[trigger] sets[i]).fabric == fabric implies fields::num(items, 0)
                    != Some(sets[i].id as u64) by {
                    assert(!mine(sets[i]));
                }
            },
        }
    }
}

/// `KeySetRemove` that succeeds takes out one key set, that of the number that it names on the accessing
/// fabric, and leaves every other and the map as they are. The set of the identity key stays, and a number
/// that the fabric does not have is not found.
pub proof fn law_one_key_set_is_removed<'a, T: GroupTable, const K: usize, const M: usize>(
    before: GroupKeyManagement<'a, T, K, M>,
    after: GroupKeyManagement<'a, T, K, M>,
    resolved: ResolvedCommand,
    b: Seq<u8>,
    items: Seq<Element>,
    id: u16,
    fabric: FabricIndex,
    ctx: InteractionContext,
    tag: Tag,
    a: InvokeAnswer,
)
    requires
        GroupKeyManagement::invokes(&before, &after, resolved, Some(b), ctx, tag, a),
        resolved.command == 0x03,
        ctx.accessing() == Some(fabric),
        fields::decode(b, seq![Field(0, Kind::U16, Need::Required)]) == Ok::<Seq<Element>, Status>(items),
        fields::num(items, 0) == Some(id as u64),
    ensures
        ({
            let (was, left) = (before.keys@.sets, after.keys@.sets);
            &&& after.keys@.map == before.keys@.map
            &&& a == im::done() || (a is Err && left == was)
            &&& id == 0 ==> a == im::refused(Status::InvalidCommand)
            &&& (id != 0 && exists|i: int| 0 <= i < was.len() && (#[trigger] was[i]).fabric == fabric && was[i].id == id)
                <==> a == im::done()
            &&& a == im::done() ==> exists|i: int|
                {
                    &&& 0 <= i < was.len()
                    &&& (#[trigger] was[i]).fabric == fabric
                    &&& was[i].id == id
                    &&& left.len() == was.len() - 1
                    &&& forall|j: int| 0 <= j < i ==> left[j] == was[j]
                    &&& forall|j: int| i <= j < left.len() ==> left[j] == was[j + 1]
                }
        }),
{
    assert(id_schema() =~= seq![Field(0, Kind::U16, Need::Required)]);
    let sets = before.keys@.sets;
    let mine = group::set_is(fabric, id);
    bounded::lemma_first_from(sets, mine, 0);
    match bounded::first(sets, mine) {
        Some(i) => {
            assert(mine(sets[i]));
        },
        None => {
            assert forall|i: int| 0 <= i < sets.len() implies !((#[trigger] sets[i]).fabric == fabric && sets[i].id == id) by {
                assert(!mine(sets[i]));
            }
        },
    }
}

proof fn lemma_indices(sets: Seq<KeySetModel>, fabric: FabricIndex, n: int)
    requires
        0 <= n <= sets.len(),
    ensures
        index_items(sets, fabric, n) == tlv::concat(
            sets.take(n).filter(group::set_of_fabric(fabric)),
            |s: KeySetModel| tlv::unsigned_bytes(Tag::Anonymous, s.id as u64),
        ),
    decreases n,
{
    let f = |s: KeySetModel| tlv::unsigned_bytes(Tag::Anonymous, s.id as u64);
    let p = group::set_of_fabric(fabric);
    reveal(Seq::filter);
    if n > 0 {
        lemma_indices(sets, fabric, n - 1);
        assert(sets.take(n).drop_last() =~= sets.take(n - 1));
        if p(sets[n - 1]) {
            tlv::lemma_concat_push(sets.take(n - 1).filter(p), sets[n - 1], f);
        } else {
            assert(index_items(sets, fabric, n - 1) + Seq::<u8>::empty() =~= index_items(sets, fabric, n - 1));
        }
    } else {
        assert(sets.take(0) =~= Seq::empty());
    }
}

/// `KeySetReadAllIndices` lists the number of each key set of the accessing fabric, in order, and no other.
pub proof fn law_every_index_is_listed<'a, T: GroupTable, const K: usize, const M: usize>(
    before: GroupKeyManagement<'a, T, K, M>,
    after: GroupKeyManagement<'a, T, K, M>,
    resolved: ResolvedCommand,
    data: Option<Seq<u8>>,
    fabric: FabricIndex,
    ctx: InteractionContext,
    tag: Tag,
    a: InvokeAnswer,
)
    requires
        GroupKeyManagement::invokes(&before, &after, resolved, data, ctx, tag, a),
        resolved.command == 0x04,
        ctx.accessing() == Some(fabric),
    ensures
        after.keys@ == before.keys@,
        a matches Ok((Some(command), body)) && command == 0x05 && body == tlv::structure_bytes(
            tag,
            tlv::array_bytes(
                Tag::Context(0),
                tlv::concat(
                    before.keys@.sets.filter(|s: KeySetModel| s.fabric == fabric),
                    |s: KeySetModel| tlv::unsigned_bytes(Tag::Anonymous, s.id as u64),
                ),
            ),
        ),
{
    let sets = before.keys@.sets;
    lemma_indices(sets, fabric, sets.len() as int);
    assert(sets.take(sets.len() as int) =~= sets);
    assert(group::set_of_fabric(fabric) =~= |s: KeySetModel| s.fabric == fabric);
}

/// How the cluster describes itself follows from the features and from what the product chooses: each attribute, command and event
/// is there exactly where they say so, with who may read, write or invoke it, and nothing else is.
pub proof fn law_the_cluster_describes_itself(features: u32, o: conformance::OptionalModel, c: crate::dm::ClusterModel)
    requires
        conformance::conform(defined(), features, o) == Ok::<crate::dm::ClusterModel, ErrorCode>(c),
    ensures
        c.id == 0x003F,
        c.revision == 2,
        c.feature_map == features,
        features & !0x01u32 == 0,
        c.attributes.contains(conformance::shown_attribute(0x0000, Some(Privilege::Manage))) == (true),
        c.attributes.contains(conformance::shown_attribute(0x0001, None)) == (true),
        c.attributes.contains(conformance::shown_attribute(0x0002, None)) == (true),
        c.attributes.contains(conformance::shown_attribute(0x0003, None)) == (true),
        c.accepted_commands.contains(conformance::shown_command(0x00, Privilege::Administer, true, false, None)) == (true),
        c.accepted_commands.contains(conformance::shown_command(0x01, Privilege::Administer, true, false, Some(0x02u32))) == (true),
        c.accepted_commands.contains(conformance::shown_command(0x03, Privilege::Administer, true, false, None)) == (true),
        c.accepted_commands.contains(conformance::shown_command(0x04, Privilege::Administer, true, false, Some(0x05u32))) == (true),
        c.attributes.len() <= 4,
        c.accepted_commands.len() <= 4,
        c.events.len() <= 0,
{
    let d = defined();
    assert(conformance::told_apart(d.attributes));
    assert(conformance::told_apart(d.commands));
    assert(conformance::told_apart(d.events));
    conformance::lemma_described(d.attributes, features, o.attributes, conformance::shown_attribute(0x0000, Some(Privilege::Manage)), 0);
    conformance::lemma_described(d.attributes, features, o.attributes, conformance::shown_attribute(0x0001, None), 1);
    conformance::lemma_described(d.attributes, features, o.attributes, conformance::shown_attribute(0x0002, None), 2);
    conformance::lemma_described(d.attributes, features, o.attributes, conformance::shown_attribute(0x0003, None), 3);
    conformance::lemma_described(d.commands, features, o.commands, conformance::shown_command(0x00, Privilege::Administer, true, false, None), 0);
    conformance::lemma_described(d.commands, features, o.commands, conformance::shown_command(0x01, Privilege::Administer, true, false, Some(0x02u32)), 1);
    conformance::lemma_described(d.commands, features, o.commands, conformance::shown_command(0x03, Privilege::Administer, true, false, None), 2);
    conformance::lemma_described(d.commands, features, o.commands, conformance::shown_command(0x04, Privilege::Administer, true, false, Some(0x05u32)), 3);
    conformance::lemma_at_most(d.attributes, features, o.attributes, d.attributes.len() as int);
    conformance::lemma_at_most(d.commands, features, o.commands, d.commands.len() as int);
    conformance::lemma_at_most(d.events, features, o.events, d.events.len() as int);
}

/// A fabric that is removed takes its key sets and its entries of the map along, all of them and no others.
pub proof fn law_a_removed_fabric_takes_its_keys<'a, T: GroupTable, const K: usize, const M: usize>(
    before: GroupKeyManagement<'a, T, K, M>,
    after: GroupKeyManagement<'a, T, K, M>,
    fabric: FabricIndex,
)
    requires
        GroupKeyManagement::outlives(&before, &after, Lifecycle::FabricRemoved(fabric)),
    ensures
        after.keys@.sets == before.keys@.sets.filter(|s: KeySetModel| s.fabric != fabric),
        after.keys@.map == before.keys@.map.filter(|e: group::MapEntry| e.fabric != fabric),
{
    assert(group::set_not_of_fabric(fabric) =~= |s: KeySetModel| s.fabric != fabric);
    assert(group::entry_not_of_fabric(fabric) =~= |e: group::MapEntry| e.fabric != fabric);
}

/// Every group that the reader may see is in the table, as long as there is room, and every one in it is one of the memberships'.
pub proof fn law_every_visible_group_is_listed(members: Seq<Member>, ctx: InteractionContext, cap: nat, n: int)
    requires
        0 <= n <= members.len(),
        n <= cap,
    ensures
        groups_in(members, ctx, cap, n).len() <= n,
        forall|i: int|
            0 <= i < n && (!ctx.fabric_filtered || ctx.fabric_index == Some((#[trigger] members[i]).fabric)) ==> groups_in(
                members,
                ctx,
                cap,
                n,
            ).contains(GroupOf { fabric: members[i].fabric, group: members[i].group }),
        forall|g: GroupOf| #[trigger] groups_in(members, ctx, cap, n).contains(g) ==> exists|i: int|
            0 <= i < n && (#[trigger] members[i]).fabric == g.fabric && members[i].group == g.group,
    decreases n,
{
    if n > 0 {
        law_every_visible_group_is_listed(members, ctx, cap, n - 1);
        let before = groups_in(members, ctx, cap, n - 1);
        let after = groups_in(members, ctx, cap, n);
        let m = members[n - 1];
        let g = GroupOf { fabric: m.fabric, group: m.group };
        bounded::lemma_first(before, same_group(g));
        if let Some(k) = bounded::first(before, same_group(g)) {
            assert(same_group(g)(before[k]));
            assert(before.contains(g));
        }
        assert forall|x: GroupOf| before.contains(x) implies #[trigger] after.contains(x) by {
            let k = choose|k: int| 0 <= k < before.len() && before[k] == x;
            assert(after[k] == x);
        }
        if after != before {
            assert(after[before.len() as int] == g);
        }
        assert forall|x: GroupOf| #[trigger] after.contains(x) implies exists|i: int|
            0 <= i < n && (#[trigger] members[i]).fabric == x.fabric && members[i].group == x.group by {
            let k = choose|k: int| 0 <= k < after.len() && after[k] == x;
            if k < before.len() {
                assert(before[k] == x);
                assert(before.contains(x));
            } else {
                assert(members[n - 1].fabric == x.fabric);
            }
        }
    }
}

/// A group in the table is shown with all of its endpoints, in the order of the memberships, and with no other.
pub proof fn law_a_group_shows_its_endpoints(members: Seq<Member>, g: GroupOf, n: int)
    requires
        0 <= n <= members.len(),
    ensures
        endpoint_items(members, g, n) == tlv::concat(
            members.take(n).filter(|m: Member| m.fabric == g.fabric && m.group == g.group),
            |m: Member| tlv::unsigned_bytes(Tag::Anonymous, m.endpoint as u64),
        ),
    decreases n,
{
    let p = |m: Member| m.fabric == g.fabric && m.group == g.group;
    let f = |m: Member| tlv::unsigned_bytes(Tag::Anonymous, m.endpoint as u64);
    if n > 0 {
        law_a_group_shows_its_endpoints(members, g, n - 1);
        let kept = members.take(n - 1).filter(p);
        bounded::lemma_filter_take(members, n - 1, p);
        if p(members[n - 1]) {
            tlv::lemma_concat_push(kept, members[n - 1], f);
        } else {
            assert(endpoint_items(members, g, n - 1) + Seq::<u8>::empty() =~= endpoint_items(members, g, n - 1));
        }
    } else {
        assert(members.take(n) =~= Seq::empty());
        bounded::lemma_filter_none(members.take(n), p);
        assert(members.take(n).filter(p) =~= Seq::empty());
    }
}

/// Writing the map: a list takes the place of all of the accessing fabric's entries where it finds room, an entry that is
/// appended maps its group, and what is refused changes nothing; no key set changes.
pub proof fn law_the_map_is_written<'a, T: GroupTable, const K: usize, const M: usize>(
    before: GroupKeyManagement<'a, T, K, M>,
    after: GroupKeyManagement<'a, T, K, M>,
    resolved: Resolved,
    b: Seq<u8>,
    op: WriteOp,
    ctx: InteractionContext,
    fabric: FabricIndex,
    r: Result<(), Status>,
)
    requires
        GroupKeyManagement::writes(&before, &after, resolved, b, op, ctx, r),
        resolved.attribute == 0x0000,
        ctx.fabric_index == Some(fabric),
        fabric.0 != 0,
    ensures
        after.keys@.sets == before.keys@.sets,
        r is Err ==> after.keys@.map == before.keys@.map,
        tlv::element_at(b, 0) is None ==> r == Err::<(), Status>(Status::InvalidAction),
        tlv::element_at(b, 0) matches Some((e, _)) ==> {
            &&& op is Append ==> match WrittenEntry::of(b, e) {
                Err(status) => r == Err::<(), Status>(status),
                Ok(entry) => r is Ok ==> after.keys@.map.contains(
                    group::MapEntry { fabric, group: entry.group, key_set: entry.key_set },
                ),
            }
            &&& op is Replace && !e.is_array() ==> r == Err::<(), Status>(Status::InvalidAction)
            &&& op is Replace && e.is_array() ==> match fields::list_of::<WrittenEntry>(b, e.content(), M as int, Status::ResourceExhausted) {
                Err(status) => r == Err::<(), Status>(status),
                Ok(entries) => r is Ok ==> {
                    let others = before.keys@.map.filter(|x: group::MapEntry| x.fabric != fabric);
                    &&& after.keys@.map.len() == others.len() + entries.len()
                    &&& after.keys@.map.take(others.len() as int) == others
                    &&& forall|i: int|
                        0 <= i < entries.len() ==> #[trigger] after.keys@.map[others.len() + i] == (group::MapEntry {
                            fabric,
                            group: entries[i].group,
                            key_set: entries[i].key_set,
                        })
                },
            }
        },
{
    before.keys.lemma_limits();
    let k = before.keys@;
    let l = before.keys.limits();
    if let Some((e, _)) = tlv::element_at(b, 0) {
        if op is Append {
            if let Ok(entry) = WrittenEntry::of(b, e) {
                group::law_mapping_touches_one_group(k, l, fabric, entry.group, entry.key_set);
                if group::group_mapped(k, l, fabric, entry.group, entry.key_set).1 is None {
                    group::law_a_mapped_group_is_found(k, l, fabric, entry.group, entry.key_set);
                    let map = group::group_mapped(k, l, fabric, entry.group, entry.key_set).0.map;
                    bounded::lemma_first(map, group::entry_is(fabric, entry.group));
                }
            }
        } else if e.is_array() {
            if let Ok(entries) = fields::list_of::<WrittenEntry>(b, e.content(), M as int, Status::ResourceExhausted) {
                group::law_a_map_is_replaced_whole(k, l, fabric, pairs(entries));
            }
        }
    }
}

} // verus!
