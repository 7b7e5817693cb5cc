//! Groups, cluster `0x0004`: which groups an endpoint is in.
//!
//! The table is per endpoint and scoped to a fabric: no command of one fabric shows, changes or
//! removes what another holds. A command that came as a groupcast is carried out and not answered.

use vstd::prelude::*;
use vstd::utf8;

use crate::bounded;
use crate::bounded::{List, Text};
use crate::clusters::dispatch::Cluster;
use crate::conformance;
use crate::conformance::{Conformance, Conforming, Definition, DefinitionModel, Optional};
use crate::dm;
use crate::dm::{AccessQualities, Privilege};
use crate::error::ErrorCode;
use crate::fields;
use crate::fields::{Field, Fields, FromTlv, Kind, Need};
use crate::im;
use crate::im::{
    AttributeId, ClusterHandler, ClusterId, CommandId, InteractionContext, InvokeAnswer, Lifecycle, ReadAnswer, Reply, Resolved,
    ResolvedCommand, Status, StatusIb, WriteOp,
};
use crate::msg::{FabricIndex, GroupId};
use crate::tlv;
use crate::tlv::{Element, Items, Tag};

verus! {

/// The cluster.
pub const ID: ClusterId = 0x0004;

/// Its revision.
pub const REVISION: u16 = 4;

/// `NameSupport`.
pub const NAME_SUPPORT: AttributeId = 0x0000;

/// `AddGroup`.
pub const ADD_GROUP: CommandId = 0x00;

/// `ViewGroup`.
pub const VIEW_GROUP: CommandId = 0x01;

/// `GetGroupMembership`.
pub const GET_GROUP_MEMBERSHIP: CommandId = 0x02;

/// `RemoveGroup`.
pub const REMOVE_GROUP: CommandId = 0x03;

/// `RemoveAllGroups`.
pub const REMOVE_ALL_GROUPS: CommandId = 0x04;

/// `AddGroupIfIdentifying`.
pub const ADD_GROUP_IF_IDENTIFYING: CommandId = 0x05;

/// `AddGroupResponse`.
pub const ADD_GROUP_RESPONSE: CommandId = 0x00;

/// `ViewGroupResponse`.
pub const VIEW_GROUP_RESPONSE: CommandId = 0x01;

/// `GetGroupMembershipResponse`.
pub const GET_GROUP_MEMBERSHIP_RESPONSE: CommandId = 0x02;

/// `RemoveGroupResponse`.
pub const REMOVE_GROUP_RESPONSE: CommandId = 0x03;

/// `GN`: group names are kept.
pub const GROUP_NAMES: u32 = 0x01;

/// The bit of `NameSupport` that says group names are kept.
pub const NAME_SUPPORT_GROUP_NAMES: u8 = 0x80;

/// The longest a group's name may be, in octets.
pub const NAME_MAX: usize = 16;

/// What a scene table asks of the group table.
pub trait GroupMembership {
    /// The memberships that the answer rests on.
    spec fn table(&self) -> Seq<MembershipModel>;

    /// Whether the endpoint is in a group on a fabric.
    fn is_group_member(&self, fabric: FabricIndex, group: GroupId) -> (r: bool)
        ensures
            r == (bounded::first(self.table(), member_is(fabric, group)) is Some),
    ;
}

/// Whether the endpoint is identifying itself.
pub trait Identifying {
    /// Whether the endpoint is identifying itself right now.
    fn is_identifying(&self) -> bool;
}

/// An endpoint that never identifies itself.
#[derive(Debug, Clone, Copy)]
pub struct NeverIdentifying;

impl Default for NeverIdentifying {
    fn default() -> (d: Self)
        ensures
            d == NeverIdentifying,
    {
        NeverIdentifying
    }
}

impl Identifying for NeverIdentifying {
    fn is_identifying(&self) -> (r: bool)
        ensures
            !r,
    {
        false
    }
}

/// An endpoint of which it is known whether it is identifying itself.
#[derive(Debug, Clone, Copy)]
pub struct IdentifyingNow(pub bool);

impl Identifying for IdentifyingNow {
    fn is_identifying(&self) -> (r: bool)
        ensures
            r == self.0,
    {
        self.0
    }
}

/// Where the endpoint's scenes are kept.
pub trait ScenePurge {
    /// What it was told to forget, in order; a product that is itself verified says what this
    /// is.
    closed spec fn forgotten(&self) -> Seq<Purge> {
        arbitrary()
    }

    /// Forgets the scenes of one group.
    fn remove_group_scenes(&mut self, fabric: FabricIndex, group: GroupId)
        ensures
            final(self).forgotten() == old(self).forgotten().push(Purge::Group(fabric, group)),
    ;

    /// Forgets the scenes of every group of a fabric.
    fn remove_grouped_scenes(&mut self, fabric: FabricIndex)
        ensures
            final(self).forgotten() == old(self).forgotten().push(Purge::Grouped(fabric)),
    ;
}

/// An endpoint without scenes.
#[derive(Clone, Copy)]
pub struct NoScenes {
    told: Ghost<Seq<Purge>>,
}

impl NoScenes {
    /// No scenes.
    pub fn new() -> (s: Self)
        ensures
            s.forgotten() == Seq::<Purge>::empty(),
    {
        NoScenes { told: Ghost(Seq::empty()) }
    }
}

impl ScenePurge for NoScenes {
    closed spec fn forgotten(&self) -> Seq<Purge> {
        self.told@
    }

    fn remove_group_scenes(&mut self, fabric: FabricIndex, group: GroupId) {
        self.told = Ghost(self.told@.push(Purge::Group(fabric, group)));
    }

    fn remove_grouped_scenes(&mut self, fabric: FabricIndex) {
        self.told = Ghost(self.told@.push(Purge::Grouped(fabric)));
    }
}

/// One membership.
pub struct Membership {
    /// The group.
    pub group: GroupId,
    /// The fabric whose group it is.
    pub fabric: FabricIndex,
    /// Its name, empty where names are not kept.
    pub name: Text<NAME_MAX>,
}

/// One membership, as a value.
pub struct MembershipModel {
    /// The group.
    pub group: GroupId,
    /// The fabric whose group it is.
    pub fabric: FabricIndex,
    /// Its name.
    pub name: Seq<char>,
}

impl View for Membership {
    type V = MembershipModel;

    open spec fn view(&self) -> MembershipModel {
        MembershipModel { group: self.group, fabric: self.fabric, name: self.name@ }
    }
}

impl Membership {
    /// The group's name.
    pub fn name(&self) -> (s: &str)
        ensures
            s@ == self@.name,
    {
        self.name.as_str()
    }
}

/// Memberships of a fabric.
pub open spec fn of_fabric(fabric: FabricIndex) -> spec_fn(MembershipModel) -> bool {
    |m: MembershipModel| m.fabric == fabric
}

/// Memberships of other fabrics.
pub open spec fn not_of_fabric(fabric: FabricIndex) -> spec_fn(MembershipModel) -> bool {
    |m: MembershipModel| m.fabric != fabric
}

/// The membership in a group of a fabric.
pub open spec fn member_is(fabric: FabricIndex, group: GroupId) -> spec_fn(MembershipModel) -> bool {
    |m: MembershipModel| m.fabric == fabric && m.group == group
}

/// Any other membership.
pub open spec fn member_is_not(fabric: FabricIndex, group: GroupId) -> spec_fn(MembershipModel) -> bool {
    |m: MembershipModel| !(m.fabric == fabric && m.group == group)
}

/// What else on the endpoint has to be forgotten.
#[derive(Debug, Clone, Copy, PartialEq, Eq, Structural)]
pub enum Purge {
    /// Nothing.
    Nothing,
    /// The scenes of one group.
    Group(FabricIndex, GroupId),
    /// The scenes of every group of a fabric.
    Grouped(FabricIndex),
}

/// What scenes were told to forget, once something may have to be.
pub open spec fn purged(forgotten: Seq<Purge>, purge: Purge) -> Seq<Purge> {
    match purge {
        Purge::Nothing => forgotten,
        _ => forgotten.push(purge),
    }
}

/// The table and the status after a group was to be added: a group that is there gets the name,
/// and a new one needs room both in the fabric's share and in the table.
pub open spec fn added(
    table: Seq<MembershipModel>,
    capacity: nat,
    per_fabric: nat,
    names: bool,
    fabric: FabricIndex,
    group: GroupId,
    name: Seq<char>,
) -> (Seq<MembershipModel>, Status) {
    let entry = MembershipModel { group, fabric, name: if names { name } else { Seq::empty() } };
    if group.0 == 0 || utf8::encode_utf8(name).len() > NAME_MAX {
        (table, Status::ConstraintError)
    } else {
        match bounded::first(table, member_is(fabric, group)) {
            Some(i) => (table.update(i, entry), Status::Success),
            None => if bounded::count(table, of_fabric(fabric)) >= per_fabric || table.len() >= capacity {
                (table, Status::ResourceExhausted)
            } else {
                (table.push(entry), Status::Success)
            },
        }
    }
}

/// The table and the status after a group was to be removed.
pub open spec fn removed(table: Seq<MembershipModel>, fabric: FabricIndex, group: GroupId) -> (
    Seq<MembershipModel>,
    Status,
) {
    if group.0 == 0 {
        (table, Status::ConstraintError)
    } else if bounded::first(table, member_is(fabric, group)) is None {
        (table, Status::NotFound)
    } else {
        (table.filter(member_is_not(fabric, group)), Status::Success)
    }
}

/// How many more groups a fabric may add, as far as the answer counts.
pub open spec fn free(table: Seq<MembershipModel>, per_fabric: nat, fabric: FabricIndex) -> int {
    let used = bounded::count(table, of_fabric(fabric));
    if used >= per_fabric {
        0
    } else if per_fabric - used > 0xFD {
        0xFD
    } else {
        per_fabric - used
    }
}

/// A status and a group.
pub open spec fn status_response(status: Status, group: GroupId, tag: Tag) -> Seq<u8> {
    tlv::structure_bytes(
        tag,
        tlv::unsigned_bytes(Tag::Context(0), im::status_value(status) as u64) + tlv::unsigned_bytes(
            Tag::Context(1),
            group.0 as u64,
        ),
    )
}

/// The answer to `ViewGroup`.
pub open spec fn view_response(table: Seq<MembershipModel>, fabric: FabricIndex, group: GroupId, tag: Tag) -> Seq<u8> {
    let found = bounded::first(table, member_is(fabric, group));
    let status = if group.0 == 0 {
        Status::ConstraintError
    } else if found is Some {
        Status::Success
    } else {
        Status::NotFound
    };
    let name = match found {
        Some(i) => table[i].name,
        None => Seq::<char>::empty(),
    };
    tlv::structure_bytes(
        tag,
        tlv::unsigned_bytes(Tag::Context(0), im::status_value(status) as u64) + tlv::unsigned_bytes(
            Tag::Context(1),
            group.0 as u64,
        ) + tlv::text_bytes(Tag::Context(2), name),
    )
}

/// Whether a list names a group, read up to the first item that settles it.
pub open spec fn asked_for(b: Seq<u8>, list: Seq<Element>, group: GroupId, i: int) -> Result<bool, Status>
    decreases list.len() - i,
{
    if i < 0 || i >= list.len() {
        Ok(false)
    } else {
        match <u16 as FromTlv>::of(b, list[i]) {
            Err(status) => Err(status),
            Ok(g) => if g == group.0 {
                Ok(true)
            } else {
                asked_for(b, list, group, i + 1)
            },
        }
    }
}

/// The groups of a fabric among the first `n` memberships that a list asks for; an empty list asks
/// for all.
pub open spec fn member_items(b: Seq<u8>, list: Seq<Element>, table: Seq<MembershipModel>, fabric: FabricIndex, n: int) -> Result<
    Seq<u8>,
    Status,
>
    decreases n,
{
    if n <= 0 {
        Ok(Seq::empty())
    } else {
        match member_items(b, list, table, fabric, n - 1) {
            Err(status) => Err(status),
            Ok(before) => {
                let m = table[n - 1];
                if m.fabric != fabric {
                    Ok(before)
                } else if list.len() == 0 {
                    Ok(before + tlv::unsigned_bytes(Tag::Anonymous, m.group.0 as u64))
                } else {
                    match asked_for(b, list, m.group, 0) {
                        Err(status) => Err(status),
                        Ok(asked) => if asked {
                            Ok(before + tlv::unsigned_bytes(Tag::Anonymous, m.group.0 as u64))
                        } else {
                            Ok(before)
                        },
                    }
                }
            },
        }
    }
}

/// What went wrong early stays wrong.
proof fn lemma_member_items_err(b: Seq<u8>, list: Seq<Element>, table: Seq<MembershipModel>, fabric: FabricIndex, i: int, n: int)
    requires
        i <= n,
        member_items(b, list, table, fabric, i) is Err,
    ensures
        member_items(b, list, table, fabric, n) == member_items(b, list, table, fabric, i),
    decreases n - i,
{
    if i < n {
        lemma_member_items_err(b, list, table, fabric, i, n - 1);
    }
}

/// The answer to `GetGroupMembership`.
pub open spec fn membership_response(free: int, items: Seq<u8>, tag: Tag) -> Seq<u8> {
    tlv::structure_bytes(
        tag,
        tlv::unsigned_bytes(Tag::Context(0), free as u64) + tlv::array_bytes(Tag::Context(1), items),
    )
}

/// The fields of `AddGroup` and `AddGroupIfIdentifying`.
pub open spec fn add_schema() -> Seq<Field> {
    seq![Field(0, Kind::U16, Need::Required), Field(1, Kind::Text, Need::Required)]
}

/// The fields of `ViewGroup` and `RemoveGroup`.
pub open spec fn group_schema() -> Seq<Field> {
    seq![Field(0, Kind::U16, Need::Required)]
}

/// The fields of `GetGroupMembership`.
pub open spec fn list_schema() -> Seq<Field> {
    seq![Field(0, Kind::Array, Need::Required)]
}

/// What a command comes to: the table after it, what else is to be forgotten, and the answer.
pub open spec fn commanded(
    table: Seq<MembershipModel>,
    capacity: nat,
    per_fabric: nat,
    names: bool,
    identifying: bool,
    command: CommandId,
    data: Option<Seq<u8>>,
    ctx: InteractionContext,
    tag: Tag,
) -> (Seq<MembershipModel>, Purge, InvokeAnswer) {
    let unicast = ctx.group is None;
    match ctx.fabric_index {
        None => (table, Purge::Nothing, im::refused(Status::UnsupportedAccess)),
        Some(fabric) => if command == ADD_GROUP || command == ADD_GROUP_IF_IDENTIFYING {
            match fields::decode_some(data, add_schema()) {
                Err(status) => (table, Purge::Nothing, im::refused(status)),
                Ok(items) => match (fields::num16(items, 0), fields::text(data->Some_0, items, 1)) {
                    (Some(group), Some(name)) => if command == ADD_GROUP_IF_IDENTIFYING && !identifying {
                        (table, Purge::Nothing, im::done())
                    } else {
                        let (after, status) = added(table, capacity, per_fabric, names, fabric, GroupId(group), name);
                        if command == ADD_GROUP && unicast {
                            (
                                after,
                                Purge::Nothing,
                                Ok((Some(ADD_GROUP_RESPONSE), status_response(status, GroupId(group), tag))),
                            )
                        } else {
                            (after, Purge::Nothing, im::done())
                        }
                    },
                    _ => (table, Purge::Nothing, im::refused(Status::InvalidCommand)),
                },
            }
        } else if command == VIEW_GROUP {
            match fields::decode_some(data, group_schema()) {
                Err(status) => (table, Purge::Nothing, im::refused(status)),
                Ok(items) => match fields::num16(items, 0) {
                    Some(group) => if unicast {
                        (
                            table,
                            Purge::Nothing,
                            Ok((Some(VIEW_GROUP_RESPONSE), view_response(table, fabric, GroupId(group), tag))),
                        )
                    } else {
                        (table, Purge::Nothing, im::done())
                    },
                    None => (table, Purge::Nothing, im::refused(Status::InvalidCommand)),
                },
            }
        } else if command == GET_GROUP_MEMBERSHIP {
            match fields::decode_some(data, list_schema()) {
                Err(status) => (table, Purge::Nothing, im::refused(status)),
                Ok(items) => match fields::container(items, 0) {
                    Some(start) => if unicast {
                        let list = tlv::scan(data->Some_0, start as int).items;
                        match member_items(data->Some_0, list, table, fabric, table.len() as int) {
                            Err(status) => (table, Purge::Nothing, im::refused(status)),
                            Ok(members) => (
                                table,
                                Purge::Nothing,
                                Ok(
                                    (
                                        Some(GET_GROUP_MEMBERSHIP_RESPONSE),
                                        membership_response(free(table, per_fabric, fabric), members, tag),
                                    ),
                                ),
                            ),
                        }
                    } else {
                        (table, Purge::Nothing, im::done())
                    },
                    None => (table, Purge::Nothing, im::refused(Status::InvalidCommand)),
                },
            }
        } else if command == REMOVE_GROUP {
            match fields::decode_some(data, group_schema()) {
                Err(status) => (table, Purge::Nothing, im::refused(status)),
                Ok(items) => match fields::num16(items, 0) {
                    Some(group) => {
                        let (after, status) = removed(table, fabric, GroupId(group));
                        let purge = if status is Success { Purge::Group(fabric, GroupId(group)) } else { Purge::Nothing };
                        if unicast {
                            (
                                after,
                                purge,
                                Ok((Some(REMOVE_GROUP_RESPONSE), status_response(status, GroupId(group), tag))),
                            )
                        } else {
                            (after, purge, im::done())
                        }
                    },
                    None => (table, Purge::Nothing, im::refused(Status::InvalidCommand)),
                },
            }
        } else if command == REMOVE_ALL_GROUPS {
            (table.filter(not_of_fabric(fabric)), Purge::Grouped(fabric), im::done())
        } else {
            (table, Purge::Nothing, im::refused(Status::UnsupportedCommand))
        },
    }
}

/// What an attribute is answered with, where names are kept and where they are not.
pub open spec fn attribute_answer(names: bool, id: AttributeId, tag: Tag) -> ReadAnswer {
    if id == NAME_SUPPORT {
        Ok(tlv::unsigned_bytes(tag, if names { NAME_SUPPORT_GROUP_NAMES as u64 } else { 0 }))
    } else {
        Err(Status::UnsupportedAttribute)
    }
}

/// Answers a read.
pub fn encode_attribute(names: bool, attribute: AttributeId, tag: Tag) -> (a: Result<Vec<u8>, Status>)
    ensures
        im::read_answer(a) == attribute_answer(names, attribute, tag),
{
    if attribute != NAME_SUPPORT {
        return Err(Status::UnsupportedAttribute);
    }
    let bits: u8 = if names {
        NAME_SUPPORT_GROUP_NAMES
    } else {
        0
    };
    let mut out: Vec<u8> = Vec::new();
    tlv::put_unsigned(&mut out, tag, bits as u64);
    proof {
        assert(out@ =~= tlv::unsigned_bytes(tag, bits as u64));
    }
    Ok(out)
}

/// The group table of an endpoint.
pub struct Groups<const N: usize, I: Identifying, S: ScenePurge> {
    /// The memberships.
    pub memberships: List<Membership, N>,
    /// How many memberships one fabric may have.
    pub per_fabric: usize,
    /// Whether names are kept.
    pub names: bool,
    /// The endpoint's Identify cluster.
    pub identifying: I,
    /// The endpoint's scenes.
    pub scenes: S,
}

impl<const N: usize, I: Identifying, S: ScenePurge> Groups<N, I, S> {
    /// The description for features and for what the product chooses.
    pub fn conforming(features: u32, optional: &Optional) -> (r: Result<Conforming, ErrorCode>)
        ensures
            conformance::outcome(r) == conformance::conform(defined(), features, optional@),
    {
        Conforming::new(&definition(), features, optional)
    }

    /// An empty table for an endpoint with the given Identify cluster and scenes.
    pub fn with(per_fabric: usize, names: bool, identifying: I, scenes: S) -> (g: Self)
        ensures
            g.memberships.models() == Seq::<MembershipModel>::empty(),
            g.per_fabric == per_fabric,
            g.names == names,
            g.identifying == identifying,
            g.scenes == scenes,
    {
        let memberships: List<Membership, N> = List::new();
        proof {
            assert(bounded::models(memberships@) =~= Seq::<MembershipModel>::empty());
        }
        Groups { memberships, per_fabric, names, identifying, scenes }
    }

    /// `NameSupport`: bit 7 where names are kept, and nothing else.
    pub fn name_support(&self) -> (bits: u8)
        ensures
            bits == (if self.names { NAME_SUPPORT_GROUP_NAMES } else { 0 }),
    {
        if self.names {
            NAME_SUPPORT_GROUP_NAMES
        } else {
            0
        }
    }

    /// The feature map that this instance should declare.
    pub fn feature_map(&self) -> (bits: u32)
        ensures
            bits == (if self.names { GROUP_NAMES } else { 0 }),
    {
        if self.names {
            GROUP_NAMES
        } else {
            0
        }
    }

    /// Every membership.
    pub fn memberships(&self) -> (m: &[Membership])
        ensures
            m@ == self.memberships@,
    {
        self.memberships.as_slice()
    }

    fn locate(&self, fabric: FabricIndex, group: GroupId) -> (at: Option<usize>)
        ensures
            match at {
                Some(i) => bounded::first(self.memberships.models(), member_is(fabric, group)) == Some(i as int) && i
                    < self.memberships.models().len(),
                None => bounded::first(self.memberships.models(), member_is(fabric, group)) is None,
            },
    {
        self.memberships.find(
            |m: &Membership| -> (b: bool)
                ensures
                    b == (m.fabric == fabric && m.group == group)
                { m.fabric.0 == fabric.0 && m.group.0 == group.0 },
            Ghost(member_is(fabric, group)),
        )
    }

    /// Whether the endpoint is in a group on a fabric.
    pub fn is_member(&self, fabric: FabricIndex, group: GroupId) -> (r: bool)
        ensures
            r == (bounded::first(self.memberships.models(), member_is(fabric, group)) is Some),
    {
        self.locate(fabric, group).is_some()
    }

    /// How many groups a fabric holds.
    pub fn len_of_fabric(&self, fabric: FabricIndex) -> (n: usize)
        ensures
            n == bounded::count(self.memberships.models(), of_fabric(fabric)),
    {
        self.memberships.tally(
            |m: &Membership| -> (b: bool)
                ensures
                    b == (m.fabric == fabric)
                { m.fabric.0 == fabric.0 },
            Ghost(of_fabric(fabric)),
        )
    }

    /// How many more groups a fabric may add; 0xFD stands for that many or more.
    pub fn capacity(&self, fabric: FabricIndex) -> (n: u8)
        ensures
            n == free(self.memberships.models(), self.per_fabric as nat, fabric),
    {
        let used: usize = self.len_of_fabric(fabric);
        if used >= self.per_fabric {
            0
        } else if self.per_fabric - used > 0xFD {
            0xFD
        } else {
            (self.per_fabric - used) as u8
        }
    }

    fn drop_fabric(&mut self, fabric: FabricIndex)
        ensures
            final(self).memberships.models() == old(self).memberships.models().filter(not_of_fabric(fabric)),
            final(self).per_fabric == old(self).per_fabric,
            final(self).names == old(self).names,
            final(self).scenes == old(self).scenes,
            final(self).identifying == old(self).identifying,
    {
        self.memberships.keep(
            |m: &Membership| -> (b: bool)
                ensures
                    b == (m.fabric != fabric)
                { m.fabric.0 != fabric.0 },
            Ghost(not_of_fabric(fabric)),
        );
    }

    /// Removes every membership of a fabric, and its scenes.
    pub fn remove_fabric(&mut self, fabric: FabricIndex)
        ensures
            final(self).memberships.models() == old(self).memberships.models().filter(not_of_fabric(fabric)),
            final(self).per_fabric == old(self).per_fabric,
            final(self).names == old(self).names,
            final(self).scenes.forgotten() == old(self).scenes.forgotten().push(Purge::Grouped(fabric)),
            final(self).identifying == old(self).identifying,
    {
        self.drop_fabric(fabric);
        self.scenes.remove_grouped_scenes(fabric);
    }

    /// Adds a group.
    pub fn add(&mut self, fabric: FabricIndex, group: GroupId, name: &str) -> (status: Status)
        ensures
            (final(self).memberships.models(), status) == added(
                old(self).memberships.models(),
                N as nat,
                old(self).per_fabric as nat,
                old(self).names,
                fabric,
                group,
                name@,
            ),
            final(self).per_fabric == old(self).per_fabric,
            final(self).names == old(self).names,
            final(self).scenes == old(self).scenes,
            final(self).identifying == old(self).identifying,
    {
        if group.0 == 0 || name.as_bytes().len() > NAME_MAX {
            return Status::ConstraintError;
        }
        let kept: Text<NAME_MAX> = if self.names {
            match Text::copy_of(name) {
                Some(t) => t,
                None => return Status::ConstraintError,
            }
        } else {
            Text::new()
        };
        let entry: Membership = Membership { group, fabric, name: kept };
        match self.locate(fabric, group) {
            Some(i) => {
                self.memberships.replace(i, entry);
                Status::Success
            },
            None => {
                if self.len_of_fabric(fabric) >= self.per_fabric {
                    return Status::ResourceExhausted;
                }
                if self.memberships.add(entry) {
                    Status::Success
                } else {
                    Status::ResourceExhausted
                }
            },
        }
    }

    /// Removes a group; its scenes are then the caller's to remove.
    fn remove(&mut self, fabric: FabricIndex, group: GroupId) -> (status: Status)
        ensures
            (final(self).memberships.models(), status) == removed(old(self).memberships.models(), fabric, group),
            final(self).per_fabric == old(self).per_fabric,
            final(self).names == old(self).names,
            final(self).scenes == old(self).scenes,
            final(self).identifying == old(self).identifying,
    {
        if group.0 == 0 {
            return Status::ConstraintError;
        }
        if self.locate(fabric, group).is_none() {
            return Status::NotFound;
        }
        self.memberships.keep(
            |m: &Membership| -> (b: bool)
                ensures
                    b == (!(m.fabric == fabric && m.group == group))
                { !(m.fabric.0 == fabric.0 && m.group.0 == group.0) },
            Ghost(member_is_not(fabric, group)),
        );
        Status::Success
    }

    fn view_answer(&self, fabric: FabricIndex, group: GroupId, tag: Tag) -> (out: Vec<u8>)
        ensures
            out@ == view_response(self.memberships.models(), fabric, group, tag),
    {
        let found: Option<usize> = self.locate(fabric, group);
        let status: Status = if group.0 == 0 {
            Status::ConstraintError
        } else if found.is_some() {
            Status::Success
        } else {
            Status::NotFound
        };
        let mut body: Vec<u8> = Vec::new();
        tlv::put_unsigned(&mut body, Tag::Context(0), status.value() as u64);
        tlv::put_unsigned(&mut body, Tag::Context(1), group.0 as u64);
        let ghost table = self.memberships.models();
        let ghost name = match bounded::first(table, member_is(fabric, group)) {
            Some(i) => table[i].name,
            None => Seq::<char>::empty(),
        };
        match found {
            Some(i) => {
                tlv::put_text(&mut body, Tag::Context(2), self.memberships.get(i).name());
            },
            None => {
                let nothing: Text<NAME_MAX> = Text::new();
                tlv::put_text(&mut body, Tag::Context(2), nothing.as_str());
            },
        }
        let mut out: Vec<u8> = Vec::new();
        tlv::put_structure(&mut out, tag, &body);
        proof {
            assert(body@ =~= tlv::unsigned_bytes(Tag::Context(0), im::status_value(status) as u64)
                + tlv::unsigned_bytes(Tag::Context(1), group.0 as u64) + tlv::text_bytes(Tag::Context(2), name));
            assert(out@ =~= view_response(table, fabric, group, tag));
        }
        out
    }

    fn asked(data: &[u8], list: &Vec<Element>, group: GroupId) -> (r: Result<bool, Status>)
        requires
            forall|i: int| 0 <= i < list@.len() ==> tlv::inside(data@, #[trigger] list@[i]),
        ensures
            r == asked_for(data@, list@, group, 0),
    {
        let mut i: usize = 0;
        while i < list.len()
            invariant
                i <= list@.len(),
                forall|i: int| 0 <= i < list@.len() ==> tlv::inside(data@, #[trigger] list@[i]),
                asked_for(data@, list@, group, 0) == asked_for(data@, list@, group, i as int),
            decreases list.len() - i,
        {
            match <u16 as FromTlv>::from_tlv(data, &list[i]) {
                Err(status) => {
                    return Err(status);
                },
                Ok(g) => {
                    if g == group.0 {
                        return Ok(true);
                    }
                },
            }
            i = i + 1;
        }
        Ok(false)
    }

    fn members(&self, data: &[u8], list: &Vec<Element>, fabric: FabricIndex) -> (r: Result<Vec<u8>, Status>)
        requires
            forall|i: int| 0 <= i < list@.len() ==> tlv::inside(data@, #[trigger] list@[i]),
        ensures
            im::read_answer(r) == member_items(
                data@,
                list@,
                self.memberships.models(),
                fabric,
                self.memberships.models().len() as int,
            ),
    {
        let mut out: Vec<u8> = Vec::new();
        let table: &[Membership] = self.memberships.as_slice();
        let ghost models = self.memberships.models();
        let mut i: usize = 0;
        while i < table.len()
            invariant
                i <= table@.len() == models.len(),
                models == bounded::models(table@),
                models == self.memberships.models(),
                forall|i: int| 0 <= i < list@.len() ==> tlv::inside(data@, #[trigger] list@[i]),
                member_items(data@, list@, models, fabric, i as int) == Ok::<Seq<u8>, Status>(out@),
            decreases table.len() - i,
        {
            proof {
                assert(models[i as int] == table@[i as int]@);
            }
            if table[i].fabric.0 == fabric.0 {
                let wanted: bool = if list.len() == 0 {
                    true
                } else {
                    match Self::asked(data, list, table[i].group) {
                        Err(status) => {
                            proof {
                                lemma_member_items_err(data@, list@, models, fabric, i + 1, models.len() as int);
                            }
                            return Err(status);
                        },
                        Ok(asked) => asked,
                    }
                };
                if wanted {
                    tlv::put_unsigned(&mut out, Tag::Anonymous, table[i].group.0 as u64);
                }
            }
            i = i + 1;
        }
        Ok(out)
    }

    /// Carries a command out on the table, and says what else on the endpoint is to be forgotten.
    #[verifier::rlimit(60)]
    pub fn command(
        &mut self,
        command: CommandId,
        data: Option<&[u8]>,
        ctx: &InteractionContext,
        tag: Tag,
        identifying: bool,
    ) -> (r: (Result<Reply, StatusIb>, Purge))
        ensures
            (final(self).memberships.models(), r.1, im::invoke_answer(r.0)) == commanded(
                old(self).memberships.models(),
                N as nat,
                old(self).per_fabric as nat,
                old(self).names,
                identifying,
                command,
                im::octets(data),
                *ctx,
                tag,
            ),
            final(self).per_fabric == old(self).per_fabric,
            final(self).names == old(self).names,
            final(self).scenes == old(self).scenes,
            final(self).identifying == old(self).identifying,
    {
        let unicast: bool = ctx.group.is_none();
        let fabric: FabricIndex = match ctx.fabric_index {
            None => return (im::refuse(Status::UnsupportedAccess), Purge::Nothing),
            Some(fabric) => fabric,
        };
        if command == ADD_GROUP || command == ADD_GROUP_IF_IDENTIFYING {
            let schema: Vec<Field> = vec![Field(0, Kind::U16, Need::Required), Field(1, Kind::Text, Need::Required)];
            proof {
                assert(schema@ =~= add_schema());
            }
            let f: Fields = match fields::read_some(data, &schema) {
                Err(status) => return (im::refuse(status), Purge::Nothing),
                Ok(f) => f,
            };
            match (f.num16(0), f.text(1)) {
                (Some(group), Some(name)) => {
                    if command == ADD_GROUP_IF_IDENTIFYING && !identifying {
                        return (im::no_response(), Purge::Nothing);
                    }
                    let status: Status = self.add(fabric, GroupId(group), name);
                    if command == ADD_GROUP && unicast {
                        (im::respond(ADD_GROUP_RESPONSE, status_answer(status, GroupId(group), tag)), Purge::Nothing)
                    } else {
                        (im::no_response(), Purge::Nothing)
                    }
                },
                _ => (im::refuse(Status::InvalidCommand), Purge::Nothing),
            }
        } else if command == VIEW_GROUP {
            let schema: Vec<Field> = vec![Field(0, Kind::U16, Need::Required)];
            proof {
                assert(schema@ =~= group_schema());
            }
            let f: Fields = match fields::read_some(data, &schema) {
                Err(status) => return (im::refuse(status), Purge::Nothing),
                Ok(f) => f,
            };
            match f.num16(0) {
                Some(group) => if unicast {
                    (im::respond(VIEW_GROUP_RESPONSE, self.view_answer(fabric, GroupId(group), tag)), Purge::Nothing)
                } else {
                    (im::no_response(), Purge::Nothing)
                },
                None => (im::refuse(Status::InvalidCommand), Purge::Nothing),
            }
        } else if command == GET_GROUP_MEMBERSHIP {
            let schema: Vec<Field> = vec![Field(0, Kind::Array, Need::Required)];
            proof {
                assert(schema@ =~= list_schema());
            }
            let f: Fields = match fields::read_some(data, &schema) {
                Err(status) => return (im::refuse(status), Purge::Nothing),
                Ok(f) => f,
            };
            match f.container(0) {
                Some(start) => if unicast {
                    let list: Items = tlv::read_items(f.data, start);
                    match self.members(f.data, &list.items, fabric) {
                        Err(status) => (im::refuse(status), Purge::Nothing),
                        Ok(items) => {
                            let mut body: Vec<u8> = Vec::new();
                            tlv::put_unsigned(&mut body, Tag::Context(0), self.capacity(fabric) as u64);
                            tlv::put_array(&mut body, Tag::Context(1), &items);
                            let mut out: Vec<u8> = Vec::new();
                            tlv::put_structure(&mut out, tag, &body);
                            proof {
                                let room = free(self.memberships.models(), self.per_fabric as nat, fabric);
                                assert(body@ =~= tlv::unsigned_bytes(Tag::Context(0), room as u64)
                                    + tlv::array_bytes(Tag::Context(1), items@));
                                assert(out@ =~= membership_response(room, items@, tag));
                            }
                            (im::respond(GET_GROUP_MEMBERSHIP_RESPONSE, out), Purge::Nothing)
                        },
                    }
                } else {
                    (im::no_response(), Purge::Nothing)
                },
                None => (im::refuse(Status::InvalidCommand), Purge::Nothing),
            }
        } else if command == REMOVE_GROUP {
            let schema: Vec<Field> = vec![Field(0, Kind::U16, Need::Required)];
            proof {
                assert(schema@ =~= group_schema());
            }
            let f: Fields = match fields::read_some(data, &schema) {
                Err(status) => return (im::refuse(status), Purge::Nothing),
                Ok(f) => f,
            };
            match f.num16(0) {
                Some(group) => {
                    let status: Status = self.remove(fabric, GroupId(group));
                    let purge: Purge = if let Status::Success = status {
                        Purge::Group(fabric, GroupId(group))
                    } else {
                        Purge::Nothing
                    };
                    if unicast {
                        (im::respond(REMOVE_GROUP_RESPONSE, status_answer(status, GroupId(group), tag)), purge)
                    } else {
                        (im::no_response(), purge)
                    }
                },
                None => (im::refuse(Status::InvalidCommand), Purge::Nothing),
            }
        } else if command == REMOVE_ALL_GROUPS {
            self.drop_fabric(fabric);
            (im::no_response(), Purge::Grouped(fabric))
        } else {
            (im::refuse(Status::UnsupportedCommand), Purge::Nothing)
        }
    }
}

fn status_answer(status: Status, group: GroupId, tag: Tag) -> (out: Vec<u8>)
    ensures
        out@ == status_response(status, group, tag),
{
    let mut body: Vec<u8> = Vec::new();
    tlv::put_unsigned(&mut body, Tag::Context(0), status.value() as u64);
    tlv::put_unsigned(&mut body, Tag::Context(1), group.0 as u64);
    let mut out: Vec<u8> = Vec::new();
    tlv::put_structure(&mut out, tag, &body);
    proof {
        assert(body@ =~= tlv::unsigned_bytes(Tag::Context(0), im::status_value(status) as u64)
            + tlv::unsigned_bytes(Tag::Context(1), group.0 as u64));
        assert(out@ =~= status_response(status, group, tag));
    }
    out
}

impl<const N: usize> Groups<N, NeverIdentifying, NoScenes> {
    /// An empty table for an endpoint with neither an Identify cluster nor scenes.
    pub fn new(per_fabric: usize, names: bool) -> (g: Self)
        ensures
            g.memberships.models() == Seq::<MembershipModel>::empty(),
            g.per_fabric == per_fabric,
            g.names == names,
    {
        Self::with(per_fabric, names, NeverIdentifying, NoScenes::new())
    }
}

impl<const N: usize, I: Identifying, S: ScenePurge> GroupMembership for Groups<N, I, S> {
    open spec fn table(&self) -> Seq<MembershipModel> {
        self.memberships.models()
    }

    fn is_group_member(&self, fabric: FabricIndex, group: GroupId) -> (r: bool) {
        self.is_member(fabric, group)
    }
}

/// The cluster's definition.
pub open spec fn defined() -> DefinitionModel {
    DefinitionModel {
        id: ID,
        revision: REVISION,
        features: GROUP_NAMES,
        attributes: seq![
            conformance::reads(NAME_SUPPORT, Conformance::Mandatory),
        ],
        commands: seq![
            conformance::invokes_with(
                ADD_GROUP,
                Privilege::Manage,
                dm::scoped_access(),
                Some(ADD_GROUP_RESPONSE),
                Conformance::Mandatory,
            ),
            conformance::invokes_with(
                VIEW_GROUP,
                Privilege::Operate,
                dm::scoped_access(),
                Some(VIEW_GROUP_RESPONSE),
                Conformance::Mandatory,
            ),
            conformance::invokes_with(
                GET_GROUP_MEMBERSHIP,
                Privilege::Operate,
                dm::scoped_access(),
                Some(GET_GROUP_MEMBERSHIP_RESPONSE),
                Conformance::Mandatory,
            ),
            conformance::invokes_with(
                REMOVE_GROUP,
                Privilege::Manage,
                dm::scoped_access(),
                Some(REMOVE_GROUP_RESPONSE),
                Conformance::Mandatory,
            ),
            conformance::invokes_with(
                REMOVE_ALL_GROUPS,
                Privilege::Manage,
                dm::scoped_access(),
                None,
                Conformance::Mandatory,
            ),
            conformance::invokes_with(
                ADD_GROUP_IF_IDENTIFYING,
                Privilege::Manage,
                dm::scoped_access(),
                None,
                Conformance::Mandatory,
            ),
        ],
        generated: seq![
            (ADD_GROUP_RESPONSE, Conformance::Mandatory),
            (VIEW_GROUP_RESPONSE, Conformance::Mandatory),
            (GET_GROUP_MEMBERSHIP_RESPONSE, Conformance::Mandatory),
            (REMOVE_GROUP_RESPONSE, Conformance::Mandatory),
        ],
        events: Seq::empty(),
    }
}

/// The cluster's definition.
pub fn definition() -> (d: Definition)
    ensures
        d@ == defined(),
{
    let d: Definition = Definition {
        id: ID,
        revision: REVISION,
        features: GROUP_NAMES,
        attributes: vec![
            conformance::readable(NAME_SUPPORT, Conformance::Mandatory),
        ],
        commands: vec![
            conformance::invocable_with(
                ADD_GROUP,
                Privilege::Manage,
                AccessQualities::fabric_scoped(),
                Some(ADD_GROUP_RESPONSE),
                Conformance::Mandatory,
            ),
            conformance::invocable_with(
                VIEW_GROUP,
                Privilege::Operate,
                AccessQualities::fabric_scoped(),
                Some(VIEW_GROUP_RESPONSE),
                Conformance::Mandatory,
            ),
            conformance::invocable_with(
                GET_GROUP_MEMBERSHIP,
                Privilege::Operate,
                AccessQualities::fabric_scoped(),
                Some(GET_GROUP_MEMBERSHIP_RESPONSE),
                Conformance::Mandatory,
            ),
            conformance::invocable_with(
                REMOVE_GROUP,
                Privilege::Manage,
                AccessQualities::fabric_scoped(),
                Some(REMOVE_GROUP_RESPONSE),
                Conformance::Mandatory,
            ),
            conformance::invocable_with(
                REMOVE_ALL_GROUPS,
                Privilege::Manage,
                AccessQualities::fabric_scoped(),
                None,
                Conformance::Mandatory,
            ),
            conformance::invocable_with(
                ADD_GROUP_IF_IDENTIFYING,
                Privilege::Manage,
                AccessQualities::fabric_scoped(),
                None,
                Conformance::Mandatory,
            ),
        ],
        generated: vec![
            (ADD_GROUP_RESPONSE, Conformance::Mandatory),
            (VIEW_GROUP_RESPONSE, Conformance::Mandatory),
            (GET_GROUP_MEMBERSHIP_RESPONSE, Conformance::Mandatory),
            (REMOVE_GROUP_RESPONSE, Conformance::Mandatory),
        ],
        events: Vec::new(),
    };
    proof {
        assert(d@.attributes =~= defined().attributes);
        assert(d@.commands =~= defined().commands);
        assert(d@.generated =~= defined().generated);
    }
    d
}

impl<const N: usize, I: Identifying, S: ScenePurge> Cluster for Groups<N, I, S> {
    const ID: ClusterId = ID;
}

impl<const N: usize, I: Identifying, S: ScenePurge> ClusterHandler for Groups<N, I, S> {
    open spec fn answers(&self, resolved: Resolved, ctx: InteractionContext, tag: Tag, a: ReadAnswer) -> bool {
        a == attribute_answer(self.names, resolved.attribute, tag)
    }

    open spec fn writes(
        before: &Self,
        after: &Self,
        resolved: Resolved,
        data: Seq<u8>,
        op: WriteOp,
        ctx: InteractionContext,
        r: Result<(), Status>,
    ) -> bool {
        *after == *before && r == Err::<(), Status>(Status::UnsupportedWrite)
    }

    open spec fn invokes(
        before: &Self,
        after: &Self,
        resolved: ResolvedCommand,
        fields: Option<Seq<u8>>,
        ctx: InteractionContext,
        tag: Tag,
        a: InvokeAnswer,
    ) -> bool {
        &&& after.per_fabric == before.per_fabric
        &&& after.names == before.names
        &&& after.identifying == before.identifying
        &&& exists|identifying: bool|
            {
                let c = #[trigger] commanded(
                    before.memberships.models(),
                    N as nat,
                    before.per_fabric as nat,
                    before.names,
                    identifying,
                    resolved.command,
                    fields,
                    ctx,
                    tag,
                );
                &&& call_ensures(I::is_identifying, (&before.identifying,), identifying)
                &&& c.0 == after.memberships.models()
                &&& after.scenes.forgotten() == purged(before.scenes.forgotten(), c.1)
                &&& c.1 is Nothing ==> after.scenes == before.scenes
                &&& c.2 == a
            }
    }

    open spec fn outlives(before: &Self, after: &Self, event: Lifecycle) -> bool {
        let Lifecycle::FabricRemoved(fabric) = event;
        &&& after.memberships.models() == before.memberships.models().filter(not_of_fabric(fabric))
        &&& after.per_fabric == before.per_fabric
        &&& after.names == before.names
        &&& after.identifying == before.identifying
        &&& after.scenes.forgotten() == before.scenes.forgotten().push(Purge::Grouped(fabric))
    }

    open spec fn unfit(&self, resolved: ResolvedCommand) -> Status {
        Status::Failure
    }

    fn answer(&self, resolved: &Resolved, ctx: &InteractionContext, tag: Tag) -> (a: Result<Vec<u8>, Status>) {
        encode_attribute(self.names, resolved.attribute, tag)
    }

    fn write(&mut self, resolved: &Resolved, data: &[u8], op: WriteOp, ctx: &InteractionContext) -> (r: Result<(), Status>) {
        Err(Status::UnsupportedWrite)
    }

    fn perform(
        &mut self,
        resolved: &ResolvedCommand,
        fields: Option<&[u8]>,
        ctx: &InteractionContext,
        tag: Tag,
    ) -> (a: Result<Reply, StatusIb>) {
        let identifying: bool = self.identifying.is_identifying();
        let (a, purge) = self.command(resolved.command, fields, ctx, tag, identifying);
        match purge {
            Purge::Nothing => {},
            Purge::Group(fabric, group) => self.scenes.remove_group_scenes(fabric, group),
            Purge::Grouped(fabric) => self.scenes.remove_grouped_scenes(fabric),
        }
        a
    }

    fn on_lifecycle(&mut self, event: Lifecycle) {
        let Lifecycle::FabricRemoved(fabric) = event;
        self.remove_fabric(fabric);
    }

    fn unfit_status(&self, resolved: &ResolvedCommand) -> (s: Status) {
        Status::Failure
    }
}

/// No command of one fabric changes what another fabric holds.
pub proof fn law_fabrics_do_not_touch(
    table: Seq<MembershipModel>,
    capacity: nat,
    per_fabric: nat,
    names: bool,
    identifying: bool,
    command: CommandId,
    data: Option<Seq<u8>>,
    ctx: InteractionContext,
    tag: Tag,
    other: FabricIndex,
)
    requires
        ctx.fabric_index != Some(other),
    ensures
        commanded(table, capacity, per_fabric, names, identifying, command, data, ctx, tag).0.filter(of_fabric(other))
            == table.filter(of_fabric(other)),
{
    if ctx.fabric_index is Some {
        let fabric = ctx.fabric_index->Some_0;
        let of = of_fabric(other);
        assert forall|group: GroupId, name: Seq<char>| #[trigger]
            added(table, capacity, per_fabric, names, fabric, group, name).0.filter(of) == table.filter(of) by {
            let entry = MembershipModel { group, fabric, name: if names { name } else { Seq::empty() } };
            bounded::lemma_first(table, member_is(fabric, group));
            match bounded::first(table, member_is(fabric, group)) {
                Some(i) => bounded::lemma_filter_update(table, i, entry, of),
                None => bounded::lemma_filter_push(table, entry, of),
            }
        }
        assert forall|group: GroupId| #[trigger] removed(table, fabric, group).0.filter(of) == table.filter(of) by {
            bounded::lemma_filter_filter(table, member_is_not(fabric, group), of, of);
        }
        bounded::lemma_filter_filter(table, not_of_fabric(fabric), of, of);
    }
}

/// No fabric gets more memberships than its share by adding groups.
pub proof fn law_a_fabrics_share_holds(
    table: Seq<MembershipModel>,
    capacity: nat,
    per_fabric: nat,
    names: bool,
    fabric: FabricIndex,
    group: GroupId,
    name: Seq<char>,
)
    requires
        bounded::count(table, of_fabric(fabric)) <= per_fabric,
        table.len() <= capacity,
    ensures
        bounded::count(added(table, capacity, per_fabric, names, fabric, group, name).0, of_fabric(fabric)) <= per_fabric,
        added(table, capacity, per_fabric, names, fabric, group, name).0.len() <= capacity,
{
    let entry = MembershipModel { group, fabric, name: if names { name } else { Seq::empty() } };
    bounded::lemma_first(table, member_is(fabric, group));
    match bounded::first(table, member_is(fabric, group)) {
        Some(i) => bounded::lemma_count_update(table, i, entry, of_fabric(fabric)),
        None => bounded::lemma_filter_push(table, entry, of_fabric(fabric)),
    }
}

/// A group that was added is there, and one that was removed is not.
pub proof fn law_add_then_view_and_remove(
    table: Seq<MembershipModel>,
    capacity: nat,
    per_fabric: nat,
    names: bool,
    fabric: FabricIndex,
    group: GroupId,
    name: Seq<char>,
)
    ensures
        added(table, capacity, per_fabric, names, fabric, group, name).1 is Success ==> bounded::first(
            added(table, capacity, per_fabric, names, fabric, group, name).0,
            member_is(fabric, group),
        ) is Some,
        removed(table, fabric, group).1 is Success ==> bounded::first(
            removed(table, fabric, group).0,
            member_is(fabric, group),
        ) is None,
{
    let after = added(table, capacity, per_fabric, names, fabric, group, name).0;
    bounded::lemma_first(table, member_is(fabric, group));
    bounded::lemma_first(after, member_is(fabric, group));
    match bounded::first(table, member_is(fabric, group)) {
        Some(i) => {
            if added(table, capacity, per_fabric, names, fabric, group, name).1 is Success {
                assert(member_is(fabric, group)(after[i]));
            }
        },
        None => {
            if added(table, capacity, per_fabric, names, fabric, group, name).1 is Success {
                assert(member_is(fabric, group)(after[after.len() - 1]));
            }
        },
    }
    let gone = removed(table, fabric, group).0;
    bounded::lemma_first(gone, member_is(fabric, group));
    bounded::lemma_filter(table, member_is_not(fabric, group));
}

/// A groupcast is never answered with a response.
pub proof fn law_a_groupcast_gets_no_response(
    table: Seq<MembershipModel>,
    capacity: nat,
    per_fabric: nat,
    names: bool,
    identifying: bool,
    command: CommandId,
    data: Option<Seq<u8>>,
    ctx: InteractionContext,
    tag: Tag,
)
    requires
        ctx.group is Some,
    ensures
        commanded(table, capacity, per_fabric, names, identifying, command, data, ctx, tag).2 matches Ok((id, _))
            ==> id is None,
{
}

/// A status and a group, as the fields of a response.
pub open spec fn status_and_group(status: u64, group: u16) -> Seq<(u8, Option<u64>)> {
    seq![(0, Some(status)), (1, Some(group as u64))]
}

proof fn lemma_status_shown(status: Status, group: GroupId, tag: Tag)
    requires
        status_response(status, group, tag).len() <= usize::MAX,
    ensures
        tlv::shows_record(
            status_response(status, group, tag),
            0,
            tag,
            status_and_group(im::status_value(status) as u64, group.0),
        ),
{
    let b = status_response(status, group, tag);
    let f = status_and_group(im::status_value(status) as u64, group.0);
    tlv::lemma_fields_of_one(0, im::status_value(status) as u64);
    tlv::lemma_fields_push(seq![(0, Some(im::status_value(status) as u64))], (1, Some(group.0 as u64)));
    assert(seq![(0u8, Some(im::status_value(status) as u64))].push((1, Some(group.0 as u64))) =~= f);
    tlv::lemma_stands_whole(b);
    tlv::lemma_shows_record(b, 0, tag, f);
}

/// Whether a table is another in which one membership is this: in the place of that of its group and fabric, or behind
/// all others.
pub open spec fn joined(was: Seq<MembershipModel>, has: Seq<MembershipModel>, m: MembershipModel) -> bool {
    exists|i: int|
        {
            &&& 0 <= i < has.len()
            &&& #[trigger] has[i] == m
            &&& has.len() == was.len() || (has.len() == was.len() + 1 && i == was.len())
            &&& i < was.len() ==> was[i].fabric == m.fabric && was[i].group == m.group
            &&& forall|j: int| 0 <= j < was.len() && j != i ==> has[j] == was[j]
        }
}

/// Adding a group: which status it comes to, and what the table has after it.
proof fn lemma_added(
    was: Seq<MembershipModel>,
    capacity: nat,
    per_fabric: nat,
    names: bool,
    fabric: FabricIndex,
    group: GroupId,
    name: Seq<char>,
)
    ensures
        ({
            let (has, status) = added(was, capacity, per_fabric, names, fabric, group, name);
            let there = exists|i: int| 0 <= i < was.len() && (#[trigger] was[i]).fabric == fabric && was[i].group == group;
            &&& status == (if group.0 == 0 || utf8::encode_utf8(name).len() > 16 {
                Status::ConstraintError
            } else if !there && (was.filter(of_fabric(fabric)).len() >= per_fabric || was.len() >= capacity) {
                Status::ResourceExhausted
            } else {
                Status::Success
            })
            &&& !(status is Success) ==> has == was
            &&& status is Success ==> joined(
                was,
                has,
                MembershipModel { group, fabric, name: if names { name } else { Seq::empty() } },
            )
        }),
{
    let mine = member_is(fabric, group);
    let (has, status) = added(was, capacity, per_fabric, names, fabric, group, name);
    let entry = MembershipModel { group, fabric, name: if names { name } else { Seq::empty() } };
    bounded::lemma_first_from(was, mine, 0);
    match bounded::first(was, mine) {
        Some(i) => {
            assert(mine(was[i]));
            if status is Success {
                assert(has[i] == entry);
            }
        },
        None => {
            assert forall|i: int| 0 <= i < was.len() implies !((#[trigger] was[i]).fabric == fabric && was[i].group == group) by {
                assert(!mine(was[i]));
            }
            if status is Success {
                assert(has[was.len() as int] == entry);
            }
        },
    }
}

/// `AddGroup` puts the accessing fabric into the group that it names, under the name that it gives where names are
/// kept, and leaves every other membership as it is: where the group is one, its name is short enough, and there
/// is room or the fabric is in the group already. The response, and only to a command that was not sent to a group,
/// tells the status and the group. `AddGroupIfIdentifying` does the same where the endpoint shows which one it is and
/// nothing else where it does not, and is never answered.
pub proof fn law_a_group_is_added<const N: usize, I: Identifying, S: ScenePurge>(
    before: Groups<N, I, S>,
    after: Groups<N, I, S>,
    resolved: ResolvedCommand,
    b: Seq<u8>,
    items: Seq<Element>,
    group: u16,
    name: Seq<char>,
    fabric: FabricIndex,
    ctx: InteractionContext,
    tag: Tag,
    a: InvokeAnswer,
)
    requires
        Groups::invokes(&before, &after, resolved, Some(b), ctx, tag, a),
        resolved.command == 0x00 || resolved.command == 0x05,
        ctx.fabric_index == Some(fabric),
        fields::decode(b, seq![Field(0, Kind::U16, Need::Required), Field(1, Kind::Text, Need::Required)]) == Ok::<
            Seq<Element>,
            Status,
        >(items),
        fields::num(items, 0) == Some(group as u64),
        fields::text(b, items, 1) == Some(name),
    ensures
        after.scenes == before.scenes,
        exists|identifying: bool|
            {
                let (was, has) = (before.memberships.models(), after.memberships.models());
                let there = exists|i: int| 0 <= i < was.len() && (#[trigger] was[i]).fabric == fabric && was[i].group.0 == group;
                let room = was.filter(of_fabric(fabric)).len() < before.per_fabric && was.len() < N;
                let status = if group == 0 || utf8::encode_utf8(name).len() > 16 {
                    0x87u64
                } else if !there && !room {
                    0x89
                } else {
                    0x00
                };
                &&& #[trigger] call_ensures(I::is_identifying, (&before.identifying,), identifying)
                &&& if resolved.command == 0x05 && !identifying {
                    has == was && a == im::done()
                } else {
                    &&& status != 0 ==> has == was
                    &&& status == 0 ==> joined(
                        was,
                        has,
                        MembershipModel { group: GroupId(group), fabric, name: if before.names { name } else { Seq::empty() } },
                    )
                    &&& if resolved.command == 0x00 && ctx.group is None {
                        a is Ok && a->Ok_0.0 == Some(0x00u32) && (a->Ok_0.1.len() <= usize::MAX ==> tlv::shows_record(
                            a->Ok_0.1,
                            0,
                            tag,
                            status_and_group(status, group),
                        ))
                    } else {
                        a == im::done()
                    }
                }
            },
{
    assert(add_schema() =~= seq![Field(0, Kind::U16, Need::Required), Field(1, Kind::Text, Need::Required)]);
    let was = before.memberships.models();
    let identifying = choose|identifying: bool|
        {
            let c = #[trigger] commanded(
                was,
                N as nat,
                before.per_fabric as nat,
                before.names,
                identifying,
                resolved.command,
                Some(b),
                ctx,
                tag,
            );
            &&& call_ensures(I::is_identifying, (&before.identifying,), identifying)
            &&& c.0 == after.memberships.models()
            &&& c.1 is Nothing ==> after.scenes == before.scenes
            &&& c.2 == a
        };
    lemma_added(was, N as nat, before.per_fabric as nat, before.names, fabric, GroupId(group), name);
    let status = added(was, N as nat, before.per_fabric as nat, before.names, fabric, GroupId(group), name).1;
    if a is Ok && a->Ok_0.0 is Some && a->Ok_0.1.len() <= usize::MAX {
        lemma_status_shown(status, GroupId(group), tag);
    }
    assert(forall|i: int| 0 <= i < was.len() ==> ((#[trigger] was[i]).group.0 == group <==> was[i].group == GroupId(group)));
    assert(call_ensures(I::is_identifying, (&before.identifying,), identifying));
}

/// `ViewGroup` tells, to a command that was not sent to a group, the status, the group and its name: of the group that the
/// accessing fabric is in, that it is not found where it is in none of that number, and that zero is no group. It
/// changes nothing.
pub proof fn law_a_group_is_viewed<const N: usize, I: Identifying, S: ScenePurge>(
    before: Groups<N, I, S>,
    after: Groups<N, I, S>,
    resolved: ResolvedCommand,
    b: Seq<u8>,
    items: Seq<Element>,
    group: u16,
    fabric: FabricIndex,
    ctx: InteractionContext,
    tag: Tag,
    a: InvokeAnswer,
)
    requires
        Groups::invokes(&before, &after, resolved, Some(b), ctx, tag, a),
        resolved.command == 0x01,
        ctx.fabric_index == Some(fabric),
        ctx.group is None,
        fields::decode(b, seq![Field(0, Kind::U16, Need::Required)]) == Ok::<Seq<Element>, Status>(items),
        fields::num(items, 0) == Some(group as u64),
    ensures
        after.memberships.models() == before.memberships.models(),
        after.scenes == before.scenes,
        a is Ok && a->Ok_0.0 == Some(0x01u32),
        ({
            let was = before.memberships.models();
            let said = |status: u64, name: Seq<char>|
                tlv::structure_bytes(
                    tag,
                    tlv::unsigned_bytes(Tag::Context(0), status) + tlv::unsigned_bytes(Tag::Context(1), group as u64)
                        + tlv::text_bytes(Tag::Context(2), name),
                );
            ||| exists|i: int|
                {
                    &&& 0 <= i < was.len()
                    &&& (#[trigger] was[i]).fabric == fabric
                    &&& was[i].group.0 == group
                    &&& forall|j: int| 0 <= j < i ==> !((#[trigger] was[j]).fabric == fabric && was[j].group.0 == group)
                    &&& a->Ok_0.1 == said(if group == 0 { 0x87 } else { 0x00 }, was[i].name)
                }
            ||| {
                &&& forall|i: int| 0 <= i < was.len() ==> !((#[trigger] was[i]).fabric == fabric && was[i].group.0 == group)
                &&& a->Ok_0.1 == said(if group == 0 { 0x87 } else { 0x8B }, Seq::empty())
            }
        }),
{
    assert(group_schema() =~= seq![Field(0, Kind::U16, Need::Required)]);
    let was = before.memberships.models();
    let mine = member_is(fabric, GroupId(group));
    bounded::lemma_first_from(was, mine, 0);
    match bounded::first(was, mine) {
        Some(i) => {
            assert(mine(was[i]));
            assert forall|j: int| 0 <= j < i implies !((#[trigger] was[j]).fabric == fabric && was[j].group.0 == group) by {
                assert(!mine(was[j]));
            }
        },
        None => {
            assert forall|i: int| 0 <= i < was.len() implies !((#[trigger] was[i]).fabric == fabric && was[i].group.0 == group) by {
                assert(!mine(was[i]));
            }
        },
    }
}

/// `RemoveGroup` takes the accessing fabric out of the group that it names, has the scenes of that group forgotten, and
/// leaves every other membership; a group that it is not in is not found, and zero is no group. The response tells
/// the status and the group.
pub proof fn law_a_group_is_removed<const N: usize, I: Identifying, S: ScenePurge>(
    before: Groups<N, I, S>,
    after: Groups<N, I, S>,
    resolved: ResolvedCommand,
    b: Seq<u8>,
    items: Seq<Element>,
    group: u16,
    fabric: FabricIndex,
    ctx: InteractionContext,
    tag: Tag,
    a: InvokeAnswer,
)
    requires
        Groups::invokes(&before, &after, resolved, Some(b), ctx, tag, a),
        resolved.command == 0x03,
        ctx.fabric_index == Some(fabric),
        fields::decode(b, seq![Field(0, Kind::U16, Need::Required)]) == Ok::<Seq<Element>, Status>(items),
        fields::num(items, 0) == Some(group as u64),
    ensures
        ({
            let (was, left) = (before.memberships.models(), after.memberships.models());
            let there = exists|i: int| 0 <= i < was.len() && (#[trigger] was[i]).fabric == fabric && was[i].group.0 == group;
            let status = if group == 0 {
                0x87u64
            } else if there {
                0x00
            } else {
                0x8B
            };
            &&& left == (if status == 0 {
                was.filter(|m: MembershipModel| !(m.fabric == fabric && m.group == GroupId(group)))
            } else {
                was
            })
            &&& after.scenes.forgotten() == (if status == 0 {
                before.scenes.forgotten().push(Purge::Group(fabric, GroupId(group)))
            } else {
                before.scenes.forgotten()
            })
            &&& if ctx.group is None {
                a is Ok && a->Ok_0.0 == Some(0x03u32) && (a->Ok_0.1.len() <= usize::MAX ==> tlv::shows_record(
                    a->Ok_0.1,
                    0,
                    tag,
                    status_and_group(status, group),
                ))
            } else {
                a == im::done()
            }
        }),
{
    assert(group_schema() =~= seq![Field(0, Kind::U16, Need::Required)]);
    let was = before.memberships.models();
    let mine = member_is(fabric, GroupId(group));
    assert(member_is_not(fabric, GroupId(group)) =~= |m: MembershipModel| !(m.fabric == fabric && m.group == GroupId(group)));
    bounded::lemma_first_from(was, mine, 0);
    match bounded::first(was, mine) {
        Some(i) => {
            assert(mine(was[i]));
        },
        None => {
            assert forall|i: int| 0 <= i < was.len() implies !((#[trigger] was[i]).fabric == fabric && was[i].group.0 == group) by {
                assert(!mine(was[i]));
            }
        },
    }
    let status = removed(was, fabric, GroupId(group)).1;
    if ctx.group is None && a->Ok_0.1.len() <= usize::MAX {
        lemma_status_shown(status, GroupId(group), tag);
    }
}

/// `RemoveAllGroups` takes the accessing fabric out of every group, leaves the others in theirs, and has the scenes of
/// the fabric's groups forgotten; and so does the removal of the fabric.
pub proof fn law_all_groups_are_removed<const N: usize, I: Identifying, S: ScenePurge>(
    before: Groups<N, I, S>,
    after: Groups<N, I, S>,
    resolved: ResolvedCommand,
    data: Option<Seq<u8>>,
    fabric: FabricIndex,
    ctx: InteractionContext,
    tag: Tag,
    a: InvokeAnswer,
)
    requires
        (Groups::invokes(&before, &after, resolved, data, ctx, tag, a) && resolved.command == 0x04 && ctx.fabric_index == Some(fabric))
            || (Groups::outlives(&before, &after, Lifecycle::FabricRemoved(fabric)) && a == im::done()),
    ensures
        a == im::done(),
        after.memberships.models() == before.memberships.models().filter(|m: MembershipModel| m.fabric != fabric),
        after.scenes.forgotten() == before.scenes.forgotten().push(Purge::Grouped(fabric)),
{
    assert(not_of_fabric(fabric) =~= |m: MembershipModel| m.fabric != fabric);
}

/// Whether a list asks for a group, where every item of it is a number of a group.
proof fn lemma_asked_for(b: Seq<u8>, list: Seq<Element>, group: GroupId, i: int)
    requires
        0 <= i <= list.len(),
        forall|k: int| 0 <= k < list.len() ==> <u16 as FromTlv>::of(b, #[trigger] list[k]) is Ok,
    ensures
        asked_for(b, list, group, i) == Ok::<bool, Status>(
            exists|k: int| i <= k < list.len() && <u16 as FromTlv>::of(b, #[trigger] list[k]) == Ok::<u16, Status>(group.0),
        ),
    decreases list.len() - i,
{
    if i < list.len() {
        lemma_asked_for(b, list, group, i + 1);
        assert(<u16 as FromTlv>::of(b, list[i]) is Ok);
    }
}

/// Whether a membership belongs into an answer: it is the fabric's, and the list asks for its group or for all.
pub open spec fn answered_for(b: Seq<u8>, list: Seq<Element>, fabric: FabricIndex) -> spec_fn(MembershipModel) -> bool {
    |m: MembershipModel|
        m.fabric == fabric && (list.len() == 0 || exists|k: int|
            0 <= k < list.len() && <u16 as FromTlv>::of(b, #[trigger] list[k]) == Ok::<u16, Status>(m.group.0))
}

proof fn lemma_member_items(b: Seq<u8>, list: Seq<Element>, table: Seq<MembershipModel>, fabric: FabricIndex, n: int)
    requires
        0 <= n <= table.len(),
        forall|k: int| 0 <= k < list.len() ==> <u16 as FromTlv>::of(b, #[trigger] list[k]) is Ok,
    ensures
        member_items(b, list, table, fabric, n) == Ok::<Seq<u8>, Status>(
            tlv::concat(
                table.take(n).filter(answered_for(b, list, fabric)),
                |m: MembershipModel| tlv::unsigned_bytes(Tag::Anonymous, m.group.0 as u64),
            ),
        ),
    decreases n,
{
    let f = |m: MembershipModel| tlv::unsigned_bytes(Tag::Anonymous, m.group.0 as u64);
    let p = answered_for(b, list, fabric);
    reveal(Seq::filter);
    if n > 0 {
        lemma_member_items(b, list, table, fabric, n - 1);
        assert(table.take(n).drop_last() =~= table.take(n - 1));
        let m = table[n - 1];
        lemma_asked_for(b, list, m.group, 0);
        if p(m) {
            tlv::lemma_concat_push(table.take(n - 1).filter(p), m, f);
        }
    } else {
        assert(table.take(0) =~= Seq::empty());
    }
}

/// `GetGroupMembership` tells how many groups the accessing fabric may still join, and each group that it is in and that
/// the list asks for, an empty one asking for all; in order, and no group of another fabric.
pub proof fn law_memberships_are_told<const N: usize, I: Identifying, S: ScenePurge>(
    before: Groups<N, I, S>,
    after: Groups<N, I, S>,
    resolved: ResolvedCommand,
    b: Seq<u8>,
    items: Seq<Element>,
    start: usize,
    fabric: FabricIndex,
    ctx: InteractionContext,
    tag: Tag,
    a: InvokeAnswer,
)
    requires
        Groups::invokes(&before, &after, resolved, Some(b), ctx, tag, a),
        resolved.command == 0x02,
        ctx.fabric_index == Some(fabric),
        ctx.group is None,
        fields::decode(b, seq![Field(0, Kind::Array, Need::Required)]) == Ok::<Seq<Element>, Status>(items),
        fields::container(items, 0) == Some(start),
        forall|k: int|
            0 <= k < tlv::scan(b, start as int).items.len() ==> <u16 as FromTlv>::of(b, #[trigger] tlv::scan(b, start as int).items[k])
                is Ok,
    ensures
        after.memberships.models() == before.memberships.models(),
        ({
            let was = before.memberships.models();
            let used = was.filter(of_fabric(fabric)).len() as int;
            let left = if used >= before.per_fabric {
                0
            } else if before.per_fabric - used > 253 {
                253
            } else {
                before.per_fabric - used
            };
            a == Ok::<(Option<CommandId>, Seq<u8>), StatusIb>(
                (
                    Some(0x02),
                    tlv::structure_bytes(
                        tag,
                        tlv::unsigned_bytes(Tag::Context(0), left as u64) + tlv::array_bytes(
                            Tag::Context(1),
                            tlv::concat(
                                was.filter(answered_for(b, tlv::scan(b, start as int).items, fabric)),
                                |m: MembershipModel| tlv::unsigned_bytes(Tag::Anonymous, m.group.0 as u64),
                            ),
                        ),
                    ),
                ),
            )
        }),
{
    assert(list_schema() =~= seq![Field(0, Kind::Array, Need::Required)]);
    let was = before.memberships.models();
    lemma_member_items(b, tlv::scan(b, start as int).items, was, fabric, was.len() as int);
    assert(was.take(was.len() as int) =~= was);
}

/// How the cluster describes itself follows from the features and from what the product chooses: each attribute, command and event
/// is there exactly where they say so, with who may read, write or invoke it, and nothing else is.
pub proof fn law_the_cluster_describes_itself(features: u32, o: conformance::OptionalModel, c: crate::dm::ClusterModel)
    requires
        conformance::conform(defined(), features, o) == Ok::<crate::dm::ClusterModel, ErrorCode>(c),
    ensures
        c.id == 0x0004,
        c.revision == 4,
        c.feature_map == features,
        features & !0x01u32 == 0,
        c.attributes.contains(conformance::shown_attribute(0x0000, None)) == (true),
        c.accepted_commands.contains(conformance::shown_command(0x00, Privilege::Manage, true, false, Some(0x00u32))) == (true),
        c.accepted_commands.contains(conformance::shown_command(0x01, Privilege::Operate, true, false, Some(0x01u32))) == (true),
        c.accepted_commands.contains(conformance::shown_command(0x02, Privilege::Operate, true, false, Some(0x02u32))) == (true),
        c.accepted_commands.contains(conformance::shown_command(0x03, Privilege::Manage, true, false, Some(0x03u32))) == (true),
        c.accepted_commands.contains(conformance::shown_command(0x04, Privilege::Manage, true, false, None)) == (true),
        c.accepted_commands.contains(conformance::shown_command(0x05, Privilege::Manage, true, false, None)) == (true),
        c.attributes.len() <= 1,
        c.accepted_commands.len() <= 6,
        c.events.len() <= 0,
{
    let d = defined();
    assert(conformance::told_apart(d.attributes));
    assert(conformance::told_apart(d.commands));
    assert(conformance::told_apart(d.events));
    conformance::lemma_described(d.attributes, features, o.attributes, conformance::shown_attribute(0x0000, None), 0);
    conformance::lemma_described(d.commands, features, o.commands, conformance::shown_command(0x00, Privilege::Manage, true, false, Some(0x00u32)), 0);
    conformance::lemma_described(d.commands, features, o.commands, conformance::shown_command(0x01, Privilege::Operate, true, false, Some(0x01u32)), 1);
    conformance::lemma_described(d.commands, features, o.commands, conformance::shown_command(0x02, Privilege::Operate, true, false, Some(0x02u32)), 2);
    conformance::lemma_described(d.commands, features, o.commands, conformance::shown_command(0x03, Privilege::Manage, true, false, Some(0x03u32)), 3);
    conformance::lemma_described(d.commands, features, o.commands, conformance::shown_command(0x04, Privilege::Manage, true, false, None), 4);
    conformance::lemma_described(d.commands, features, o.commands, conformance::shown_command(0x05, Privilege::Manage, true, false, None), 5);
    conformance::lemma_at_most(d.attributes, features, o.attributes, d.attributes.len() as int);
    conformance::lemma_at_most(d.commands, features, o.commands, d.commands.len() as int);
    conformance::lemma_at_most(d.events, features, o.events, d.events.len() as int);
}

/// A fabric that is removed takes its groups along, all of them and no others, and the scenes of all of them are forgotten.
pub proof fn law_a_removed_fabric_takes_its_groups<const N: usize, I: Identifying, S: ScenePurge>(before: Groups<N, I, S>, after: Groups<N, I, S>, fabric: FabricIndex, x: MembershipModel)
    requires
        Groups::outlives(&before, &after, Lifecycle::FabricRemoved(fabric)),
    ensures
        after.memberships.models().contains(x) == (before.memberships.models().contains(x) && x.fabric != fabric),
        after.memberships.models() == before.memberships.models().filter(|e: MembershipModel| e.fabric != fabric),
        after.scenes.forgotten() == before.scenes.forgotten().push(Purge::Grouped(fabric)),
{
    assert(not_of_fabric(fabric) =~= |e: MembershipModel| e.fabric != fabric);
    bounded::lemma_filter(before.memberships.models(), not_of_fabric(fabric));
}

} // verus!
