//! Access Control, cluster `0x001F`: reading and writing who may do what.
//!
//! The list needs Administer to be read and to be written. Each change is recorded with who made
//! it and what the entry is after it, for the device to report.

use vstd::prelude::*;

use crate::acl;
use crate::acl::{Acl, AuthMode, Entry, EntryModel, Target};
use crate::bounded;
use crate::bounded::List;
use crate::clusters::dispatch::Cluster;
use crate::dm;
use crate::dm::{
    Access, AccessQualities, AttributeDescriptor, ClusterDescriptor, ClusterModel, EventDescriptor, EventPriority, Privilege,
};
use crate::error::ErrorCode;
use crate::fields;
use crate::fields::FromTlv;
use crate::im;
use crate::im::{
    AttributeId, ClusterHandler, ClusterId, EventId, InteractionContext, InvokeAnswer, Lifecycle, ReadAnswer, Reply, Resolved,
    ResolvedCommand, Status, StatusIb, WriteOp,
};
use crate::msg::{FabricIndex, NodeId};
use crate::tlv;
use crate::tlv::{ContainerKind, Element, Items, Tag, TlvWriter, Value};

verus! {

/// The cluster.
pub const ID: ClusterId = 0x001F;

/// Its revision.
pub const REVISION: u16 = 3;

/// `ACL`.
pub const ACL: AttributeId = 0x0000;

/// `Extension`.
pub const EXTENSION: AttributeId = 0x0001;

/// `SubjectsPerAccessControlEntry`.
pub const SUBJECTS_PER_ENTRY: AttributeId = 0x0002;

/// `TargetsPerAccessControlEntry`.
pub const TARGETS_PER_ENTRY: AttributeId = 0x0003;

/// `AccessControlEntriesPerFabric`.
pub const ENTRIES_PER_FABRIC: AttributeId = 0x0004;

/// `AccessControlEntryChanged`.
pub const ACCESS_CONTROL_ENTRY_CHANGED: EventId = 0x0000;

/// The field that says which fabric an entry belongs to.
pub const FABRIC_INDEX_FIELD: u8 = 254;

/// How many changes are kept until the device takes them.
pub const PENDING: usize = 8;

/// What happened to an entry. A list is compared with the one it replaces position by position.
#[derive(Debug, Clone, Copy, PartialEq, Eq, Structural)]
pub enum ChangeType {
    /// It was there before and is there now.
    Changed,
    /// It was not there before.
    Added,
    /// It is not there any more.
    Removed,
}

/// The number that stands for a kind of change.
pub open spec fn change_value(c: ChangeType) -> u64 {
    match c {
        ChangeType::Changed => 0,
        ChangeType::Added => 1,
        ChangeType::Removed => 2,
    }
}

impl ChangeType {
    /// The number that stands for it.
    pub fn value(self) -> (v: u64)
        ensures
            v == change_value(self),
    {
        match self {
            ChangeType::Changed => 0,
            ChangeType::Added => 1,
            ChangeType::Removed => 2,
        }
    }
}

/// The number that stands for a privilege on the wire.
pub open spec fn wire(p: Privilege) -> u64 {
    match p {
        Privilege::View => 1,
        Privilege::ProxyView => 2,
        Privilege::Operate => 3,
        Privilege::Manage => 4,
        Privilege::Administer => 5,
    }
}

/// The privilege that a number on the wire stands for.
pub open spec fn unwire(v: u64) -> Option<Privilege> {
    if v == 1 {
        Some(Privilege::View)
    } else if v == 2 {
        Some(Privilege::ProxyView)
    } else if v == 3 {
        Some(Privilege::Operate)
    } else if v == 4 {
        Some(Privilege::Manage)
    } else if v == 5 {
        Some(Privilege::Administer)
    } else {
        None
    }
}

/// The number that stands for a privilege on the wire.
pub fn privilege_value(privilege: Privilege) -> (v: u64)
    ensures
        v == wire(privilege),
{
    match privilege {
        Privilege::View => 1,
        Privilege::ProxyView => 2,
        Privilege::Operate => 3,
        Privilege::Manage => 4,
        Privilege::Administer => 5,
    }
}

/// The privilege that a number on the wire stands for.
pub fn privilege_from_value(value: u64) -> (p: Option<Privilege>)
    ensures
        p == unwire(value),
{
    match value {
        1 => Some(Privilege::View),
        2 => Some(Privilege::ProxyView),
        3 => Some(Privilege::Operate),
        4 => Some(Privilege::Manage),
        5 => Some(Privilege::Administer),
        _ => None,
    }
}

/// How the cluster describes itself.
pub open spec fn description() -> ClusterModel {
    ClusterModel {
        id: ID,
        revision: REVISION,
        feature_map: 0,
        attributes: seq![
            AttributeDescriptor {
                id: ACL,
                access: Access {
                    read: Some(Privilege::Administer),
                    write: Some(Privilege::Administer),
                    invoke: None,
                    qualities: AccessQualities { fabric_scoped: true, fabric_sensitive: false, timed: false },
                },
                qualities: dm::plain_value(),
            },
            dm::readable(SUBJECTS_PER_ENTRY, dm::plain_value()),
            dm::readable(TARGETS_PER_ENTRY, dm::plain_value()),
            dm::readable(ENTRIES_PER_FABRIC, dm::plain_value()),
        ],
        accepted_commands: Seq::empty(),
        generated_commands: Seq::empty(),
        events: seq![EventDescriptor { id: ACCESS_CONTROL_ENTRY_CHANGED, priority: EventPriority::Info }],
    }
}

/// How the cluster describes itself.
pub fn cluster() -> (d: ClusterDescriptor)
    ensures
        d@ == description(),
{
    let d: ClusterDescriptor = ClusterDescriptor {
        id: ID,
        revision: REVISION,
        feature_map: 0,
        attributes: vec![
            AttributeDescriptor::read_write(ACL).with_access(
                Access::read_write_with(Privilege::Administer, Privilege::Administer).with_qualities(
                    AccessQualities::fabric_scoped(),
                ),
            ),
            AttributeDescriptor::read_only(SUBJECTS_PER_ENTRY),
            AttributeDescriptor::read_only(TARGETS_PER_ENTRY),
            AttributeDescriptor::read_only(ENTRIES_PER_FABRIC),
        ],
        accepted_commands: Vec::new(),
        generated_commands: Vec::new(),
        events: vec![EventDescriptor::new(ACCESS_CONTROL_ENTRY_CHANGED).with_priority(EventPriority::Info)],
    };
    proof {
        assert(d@.attributes =~= description().attributes);
        assert(d@.events =~= description().events);
    }
    d
}

/// A subject on the wire.
pub open spec fn subject_bytes() -> spec_fn(NodeId) -> Seq<u8> {
    |s: NodeId| tlv::unsigned_bytes(Tag::Anonymous, s.0)
}

/// A target on the wire; what it does not name is null.
pub open spec fn target_bytes() -> spec_fn(Target) -> Seq<u8> {
    |t: Target|
        tlv::structure_bytes(
            Tag::Anonymous,
            tlv::nullable_bytes(Tag::Context(0), wide32(t.cluster)) + tlv::nullable_bytes(
                Tag::Context(1),
                wide16(t.endpoint),
            ) + tlv::nullable_bytes(Tag::Context(2), wide32(t.device_type)),
        )
}

/// A number of 32 bits, widened.
pub open spec fn wide32(v: Option<u32>) -> Option<u64> {
    match v {
        Some(v) => Some(v as u64),
        None => None,
    }
}

/// A number of 16 bits, widened.
pub open spec fn wide16(v: Option<u16>) -> Option<u64> {
    match v {
        Some(v) => Some(v as u64),
        None => None,
    }
}

/// An entry on the wire; an empty list stands for all and is null.
pub open spec fn entry_bytes(tag: Tag, e: EntryModel) -> Seq<u8> {
    tlv::structure_bytes(
        tag,
        tlv::unsigned_bytes(Tag::Context(1), wire(e.privilege)) + tlv::unsigned_bytes(
            Tag::Context(2),
            acl::auth_value(e.auth_mode) as u64,
        ) + (if e.subjects.len() == 0 {
            tlv::null_bytes(Tag::Context(3))
        } else {
            tlv::array_bytes(Tag::Context(3), tlv::concat(e.subjects, subject_bytes()))
        }) + (if e.targets.len() == 0 {
            tlv::null_bytes(Tag::Context(4))
        } else {
            tlv::array_bytes(Tag::Context(4), tlv::concat(e.targets, target_bytes()))
        }) + tlv::unsigned_bytes(Tag::Context(FABRIC_INDEX_FIELD), e.fabric.0 as u64),
    )
}

fn put_subjects(out: &mut Vec<u8>, subjects: &[NodeId])
    ensures
        final(out)@ == old(out)@ + tlv::concat(subjects@, subject_bytes()),
{
    let mut i: usize = 0;
    proof {
        assert(subjects@.take(0) =~= Seq::<NodeId>::empty());
        assert(out@ =~= old(out)@ + tlv::concat(subjects@.take(0), subject_bytes()));
    }
    while i < subjects.len()
        invariant
            i <= subjects@.len(),
            out@ == old(out)@ + tlv::concat(subjects@.take(i as int), subject_bytes()),
        decreases subjects.len() - i,
    {
        tlv::put_unsigned(out, Tag::Anonymous, subjects[i].0);
        proof {
            tlv::lemma_concat_take(subjects@, i as int, subject_bytes());
            assert(out@ =~= old(out)@ + tlv::concat(subjects@.take(i + 1), subject_bytes()));
        }
        i = i + 1;
    }
    proof {
        assert(subjects@.take(i as int) =~= subjects@);
    }
}

fn put_target(out: &mut Vec<u8>, t: &Target)
    ensures
        final(out)@ == old(out)@ + target_bytes()(*t),
{
    let mut body: Vec<u8> = Vec::new();
    tlv::put_nullable(
        &mut body,
        Tag::Context(0),
        match t.cluster {
            Some(v) => Some(v as u64),
            None => None,
        },
    );
    tlv::put_nullable(
        &mut body,
        Tag::Context(1),
        match t.endpoint {
            Some(v) => Some(v as u64),
            None => None,
        },
    );
    tlv::put_nullable(
        &mut body,
        Tag::Context(2),
        match t.device_type {
            Some(v) => Some(v as u64),
            None => None,
        },
    );
    proof {
        assert(body@ =~= tlv::nullable_bytes(Tag::Context(0), wide32(t.cluster)) + tlv::nullable_bytes(
            Tag::Context(1),
            wide16(t.endpoint),
        ) + tlv::nullable_bytes(Tag::Context(2), wide32(t.device_type)));
    }
    tlv::put_structure(out, Tag::Anonymous, &body);
}

fn put_targets(out: &mut Vec<u8>, targets: &[Target])
    ensures
        final(out)@ == old(out)@ + tlv::concat(targets@, target_bytes()),
{
    let mut i: usize = 0;
    proof {
        assert(targets@.take(0) =~= Seq::<Target>::empty());
        assert(out@ =~= old(out)@ + tlv::concat(targets@.take(0), target_bytes()));
    }
    while i < targets.len()
        invariant
            i <= targets@.len(),
            out@ == old(out)@ + tlv::concat(targets@.take(i as int), target_bytes()),
        decreases targets.len() - i,
    {
        put_target(out, &targets[i]);
        proof {
            tlv::lemma_concat_take(targets@, i as int, target_bytes());
            assert(out@ =~= old(out)@ + tlv::concat(targets@.take(i + 1), target_bytes()));
        }
        i = i + 1;
    }
    proof {
        assert(targets@.take(i as int) =~= targets@);
    }
}

fn write_entry<const S: usize, const T: usize>(out: &mut Vec<u8>, tag: Tag, entry: &Entry<S, T>)
    ensures
        final(out)@ == old(out)@ + entry_bytes(tag, entry@),
{
    let mut body: Vec<u8> = Vec::new();
    tlv::put_unsigned(&mut body, Tag::Context(1), privilege_value(entry.privilege));
    tlv::put_unsigned(&mut body, Tag::Context(2), entry.auth_mode.value() as u64);
    let ghost head = body@;
    let mut subjects: Vec<u8> = Vec::new();
    if entry.subjects.is_empty() {
        tlv::put_null(&mut subjects, Tag::Context(3));
    } else {
        let mut items: Vec<u8> = Vec::new();
        put_subjects(&mut items, entry.subjects.as_slice());
        proof {
            assert(items@ =~= tlv::concat(entry@.subjects, subject_bytes()));
        }
        tlv::put_array(&mut subjects, Tag::Context(3), &items);
    }
    let mut targets: Vec<u8> = Vec::new();
    if entry.targets.is_empty() {
        tlv::put_null(&mut targets, Tag::Context(4));
    } else {
        let mut items: Vec<u8> = Vec::new();
        put_targets(&mut items, entry.targets.as_slice());
        proof {
            assert(items@ =~= tlv::concat(entry@.targets, target_bytes()));
        }
        tlv::put_array(&mut targets, Tag::Context(4), &items);
    }
    tlv::put_bytes(&mut body, subjects.as_slice());
    tlv::put_bytes(&mut body, targets.as_slice());
    tlv::put_unsigned(&mut body, Tag::Context(FABRIC_INDEX_FIELD), entry.fabric_index.0 as u64);
    proof {
        let e = entry@;
        let a = if e.subjects.len() == 0 {
            tlv::null_bytes(Tag::Context(3))
        } else {
            tlv::array_bytes(Tag::Context(3), tlv::concat(e.subjects, subject_bytes()))
        };
        let c = if e.targets.len() == 0 {
            tlv::null_bytes(Tag::Context(4))
        } else {
            tlv::array_bytes(Tag::Context(4), tlv::concat(e.targets, target_bytes()))
        };
        assert(subjects@ =~= a);
        assert(targets@ =~= c);
        assert(body@ =~= tlv::unsigned_bytes(Tag::Context(1), wire(e.privilege)) + tlv::unsigned_bytes(
            Tag::Context(2),
            acl::auth_value(e.auth_mode) as u64,
        ) + a + c + tlv::unsigned_bytes(Tag::Context(FABRIC_INDEX_FIELD), e.fabric.0 as u64));
    }
    tlv::put_structure(out, tag, &body);
}

/// One change to the list: who made it, what it was, and the entry it left or removed. Over a
/// passcode's session there is no node, and the passcode's number stands for it.
pub struct EntryChanged<const S: usize, const T: usize> {
    /// The administrator.
    pub admin_node_id: Option<NodeId>,
    /// The passcode.
    pub admin_passcode_id: Option<u16>,
    /// What happened.
    pub change_type: ChangeType,
    /// The entry.
    pub latest_value: Option<Entry<S, T>>,
    /// The fabric whose list changed.
    pub fabric_index: FabricIndex,
}

/// One change to the list, as a value.
pub struct ChangeModel {
    /// The administrator.
    pub admin_node_id: Option<NodeId>,
    /// The passcode.
    pub admin_passcode_id: Option<u16>,
    /// What happened.
    pub change_type: ChangeType,
    /// The entry.
    pub latest_value: Option<EntryModel>,
    /// The fabric whose list changed.
    pub fabric: FabricIndex,
}

/// An entry as a value, where there is one.
pub open spec fn entry_of<const S: usize, const T: usize>(e: Option<Entry<S, T>>) -> Option<EntryModel> {
    match e {
        Some(e) => Some(e@),
        None => None,
    }
}

impl<const S: usize, const T: usize> View for EntryChanged<S, T> {
    type V = ChangeModel;

    open spec fn view(&self) -> ChangeModel {
        ChangeModel {
            admin_node_id: self.admin_node_id,
            admin_passcode_id: self.admin_passcode_id,
            change_type: self.change_type,
            latest_value: entry_of(self.latest_value),
            fabric: self.fabric_index,
        }
    }
}

/// A change made in an interaction: exactly one of node and passcode is named.
pub open spec fn change_by(ctx: InteractionContext, change_type: ChangeType, latest_value: Option<EntryModel>) -> ChangeModel {
    ChangeModel {
        admin_node_id: ctx.peer_node_id,
        admin_passcode_id: if ctx.peer_node_id is Some { None } else { Some(0) },
        change_type,
        latest_value,
        fabric: match ctx.fabric_index {
            Some(f) => f,
            None => FabricIndex(0),
        },
    }
}

/// A node's number.
pub open spec fn node_of(v: Option<NodeId>) -> Option<u64> {
    match v {
        Some(v) => Some(v.0),
        None => None,
    }
}

/// A change on the wire.
pub open spec fn change_bytes(tag: Tag, c: ChangeModel) -> Seq<u8> {
    tlv::structure_bytes(
        tag,
        tlv::nullable_bytes(Tag::Context(1), node_of(c.admin_node_id)) + tlv::nullable_bytes(
            Tag::Context(2),
            wide16(c.admin_passcode_id),
        ) + tlv::unsigned_bytes(Tag::Context(3), change_value(c.change_type)) + (match c.latest_value {
            Some(e) => entry_bytes(Tag::Context(4), e),
            None => tlv::null_bytes(Tag::Context(4)),
        }) + tlv::unsigned_bytes(Tag::Context(FABRIC_INDEX_FIELD), c.fabric.0 as u64),
    )
}

impl<const S: usize, const T: usize> EntryChanged<S, T> {
    /// A change made in an interaction.
    pub fn for_session(ctx: &InteractionContext, change_type: ChangeType, latest_value: Option<Entry<S, T>>) -> (c: Self)
        ensures
            c@ == change_by(*ctx, change_type, entry_of(latest_value)),
    {
        let admin_passcode_id: Option<u16> = match ctx.peer_node_id {
            Some(_) => None,
            None => Some(0),
        };
        let fabric_index: FabricIndex = match ctx.fabric_index {
            Some(f) => f,
            None => FabricIndex(0),
        };
        EntryChanged { admin_node_id: ctx.peer_node_id, admin_passcode_id, change_type, latest_value, fabric_index }
    }

    /// The same change, of another fabric.
    pub fn for_fabric(self, fabric_index: FabricIndex) -> (c: Self)
        ensures
            c@ == (ChangeModel { fabric: fabric_index, ..self@ }),
    {
        EntryChanged { fabric_index, ..self }
    }

    /// Writes the change, where it fits.
    pub fn encode(&self, w: &mut TlvWriter, tag: Tag) -> (r: Result<(), ErrorCode>)
        ensures
            (r is Ok) == (change_bytes(tag, self@).len() <= old(w).room()),
            r is Err ==> r == Err::<(), ErrorCode>(ErrorCode::NoSpace),
            final(w).has_written(*old(w), if r is Ok { change_bytes(tag, self@) } else { Seq::empty() }),
    {
        let mut body: Vec<u8> = Vec::new();
        tlv::put_nullable(
            &mut body,
            Tag::Context(1),
            match self.admin_node_id {
                Some(id) => Some(id.0),
                None => None,
            },
        );
        tlv::put_nullable(
            &mut body,
            Tag::Context(2),
            match self.admin_passcode_id {
                Some(id) => Some(id as u64),
                None => None,
            },
        );
        tlv::put_unsigned(&mut body, Tag::Context(3), self.change_type.value());
        let ghost head = body@;
        let ghost latest = match self@.latest_value {
            Some(e) => entry_bytes(Tag::Context(4), e),
            None => tlv::null_bytes(Tag::Context(4)),
        };
        match &self.latest_value {
            Some(entry) => {
                write_entry(&mut body, Tag::Context(4), entry);
            },
            None => {
                tlv::put_null(&mut body, Tag::Context(4));
            },
        }
        proof {
            assert(body@ == head + latest);
        }
        tlv::put_unsigned(&mut body, Tag::Context(FABRIC_INDEX_FIELD), self.fabric_index.0 as u64);
        let mut out: Vec<u8> = Vec::new();
        tlv::put_structure(&mut out, tag, &body);
        proof {
            assert(body@ =~= tlv::nullable_bytes(Tag::Context(1), node_of(self@.admin_node_id)) + tlv::nullable_bytes(
                Tag::Context(2),
                wide16(self@.admin_passcode_id),
            ) + tlv::unsigned_bytes(Tag::Context(3), change_value(self@.change_type)) + latest + tlv::unsigned_bytes(
                Tag::Context(FABRIC_INDEX_FIELD),
                self@.fabric.0 as u64,
            ));
            assert(out@ =~= change_bytes(tag, self@));
        }
        if w.append(out.as_slice()) {
            Ok(())
        } else {
            Err(ErrorCode::NoSpace)
        }
    }
}

impl FromTlv for NodeId {
    open spec fn of(b: Seq<u8>, e: Element) -> Result<NodeId, Status> {
        match e.value {
            Value::Unsigned(v) => Ok(NodeId(v)),
            _ => Err(Status::ConstraintError),
        }
    }

    fn from_tlv(data: &[u8], e: &Element) -> (r: Result<NodeId, Status>) {
        match e.value {
            Value::Unsigned(v) => Ok(NodeId(v)),
            _ => Err(Status::ConstraintError),
        }
    }
}

/// A target with what one more element says.
pub open spec fn target_with(t: Target, e: Element) -> Result<Target, Status> {
    match e.value {
        Value::Null => Ok(t),
        Value::Unsigned(v) => if e.context == Some(0u8) {
            if v <= u32::MAX {
                Ok(Target { cluster: Some(v as u32), ..t })
            } else {
                Err(Status::ConstraintError)
            }
        } else if e.context == Some(1u8) {
            if v <= u16::MAX {
                Ok(Target { endpoint: Some(v as u16), ..t })
            } else {
                Err(Status::ConstraintError)
            }
        } else if e.context == Some(2u8) {
            if v <= u32::MAX {
                Ok(Target { device_type: Some(v as u32), ..t })
            } else {
                Err(Status::ConstraintError)
            }
        } else {
            Ok(t)
        },
        _ => Err(Status::ConstraintError),
    }
}

/// What the first `n` elements of a target say.
pub open spec fn target_after(items: Seq<Element>, n: int) -> Result<Target, Status>
    decreases n,
{
    if n <= 0 {
        Ok(Target { cluster: None, endpoint: None, device_type: None })
    } else {
        match target_after(items, n - 1) {
            Err(status) => Err(status),
            Ok(t) => target_with(t, items[n - 1]),
        }
    }
}

proof fn lemma_target_err(items: Seq<Element>, i: int, n: int)
    requires
        i <= n,
        target_after(items, i) is Err,
    ensures
        target_after(items, n) == target_after(items, i),
    decreases n - i,
{
    if i < n {
        lemma_target_err(items, i, n - 1);
    }
}

fn put_in(t: Target, e: &Element) -> (r: Result<Target, Status>)
    ensures
        r == target_with(t, *e),
{
    match e.value {
        Value::Null => Ok(t),
        Value::Unsigned(v) => match e.context {
            Some(0) => if v <= 0xFFFF_FFFF {
                Ok(Target { cluster: Some(v as u32), ..t })
            } else {
                Err(Status::ConstraintError)
            },
            Some(1) => if v <= 0xFFFF {
                Ok(Target { endpoint: Some(v as u16), ..t })
            } else {
                Err(Status::ConstraintError)
            },
            Some(2) => if v <= 0xFFFF_FFFF {
                Ok(Target { device_type: Some(v as u32), ..t })
            } else {
                Err(Status::ConstraintError)
            },
            _ => Ok(t),
        },
        _ => Err(Status::ConstraintError),
    }
}

impl FromTlv for Target {
    /// A target is a structure; what it says last counts, and it has to name something.
    open spec fn of(b: Seq<u8>, e: Element) -> Result<Target, Status> {
        if !e.is_structure() {
            Err(Status::InvalidAction)
        } else {
            let s = tlv::scan(b, e.content());
            match target_after(s.items, s.items.len() as int) {
                Err(status) => Err(status),
                Ok(t) => if !s.complete {
                    Err(Status::InvalidAction)
                } else if !t.valid() {
                    Err(Status::ConstraintError)
                } else {
                    Ok(t)
                },
            }
        }
    }

    fn from_tlv(data: &[u8], e: &Element) -> (r: Result<Target, Status>) {
        let start: usize = match e.value {
            Value::Container(ContainerKind::Structure, start) => start,
            _ => return Err(Status::InvalidAction),
        };
        decode_target(data, start)
    }
}

fn decode_target(data: &[u8], start: usize) -> (r: Result<Target, Status>)
    requires
        start <= data@.len(),
    ensures
        ({
            let s = tlv::scan(data@, start as int);
            r == match target_after(s.items, s.items.len() as int) {
                Err(status) => Err::<Target, Status>(status),
                Ok(t) => if !s.complete {
                    Err::<Target, Status>(Status::InvalidAction)
                } else if !t.valid() {
                    Err::<Target, Status>(Status::ConstraintError)
                } else {
                    Ok::<Target, Status>(t)
                },
            }
        }),
{
    let read: Items = tlv::read_items(data, start);
    let mut t: Target = Target::new();
    let mut i: usize = 0;
    while i < read.items.len()
        invariant
            i <= read.items@.len(),
            read.items@ == tlv::scan(data@, start as int).items,
            target_after(read.items@, i as int) == Ok::<Target, Status>(t),
        decreases read.items.len() - i,
    {
        match put_in(t, &read.items[i]) {
            Err(status) => {
                proof {
                    lemma_target_err(read.items@, i + 1, read.items@.len() as int);
                }
                return Err(status);
            },
            Ok(next) => {
                t = next;
            },
        }
        i = i + 1;
    }
    if !read.complete {
        return Err(Status::InvalidAction);
    }
    if !t.is_valid() {
        return Err(Status::ConstraintError);
    }
    Ok(t)
}

/// An entry that is being read.
pub struct Draft {
    /// What it grants.
    pub privilege: Option<Privilege>,
    /// How a subject proves who it is.
    pub auth_mode: Option<AuthMode>,
    /// To whom.
    pub subjects: Seq<NodeId>,
    /// On what.
    pub targets: Seq<Target>,
}

/// An entry that is being read, with what one more element says.
pub open spec fn draft_with(b: Seq<u8>, d: Draft, e: Element, s: nat, t: nat) -> Result<Draft, Status> {
    if e.context == Some(1u8) {
        match e.value {
            Value::Unsigned(v) => match unwire(v) {
                Some(p) => Ok(Draft { privilege: Some(p), ..d }),
                None => Err(Status::ConstraintError),
            },
            _ => Err(Status::ConstraintError),
        }
    } else if e.context == Some(2u8) {
        match e.value {
            Value::Unsigned(v) => if v > u8::MAX {
                Err(Status::ConstraintError)
            } else {
                match acl::auth_of(v as u8) {
                    Some(m) => Ok(Draft { auth_mode: Some(m), ..d }),
                    None => Err(Status::ConstraintError),
                }
            },
            _ => Err(Status::ConstraintError),
        }
    } else if e.context == Some(3u8) {
        if e.value is Null {
            Ok(d)
        } else if !e.is_array() {
            Err(Status::InvalidAction)
        } else {
            match fields::list_onto(b, e.content(), d.subjects, s, Status::ResourceExhausted) {
                Err(status) => Err(status),
                Ok(subjects) => Ok(Draft { subjects, ..d }),
            }
        }
    } else if e.context == Some(4u8) {
        if e.value is Null {
            Ok(d)
        } else if !e.is_array() {
            Err(Status::InvalidAction)
        } else {
            match fields::list_onto(b, e.content(), d.targets, t, Status::ResourceExhausted) {
                Err(status) => Err(status),
                Ok(targets) => Ok(Draft { targets, ..d }),
            }
        }
    } else {
        Ok(d)
    }
}

/// What the first `n` elements of an entry say.
pub open spec fn draft_after(b: Seq<u8>, items: Seq<Element>, n: int, s: nat, t: nat) -> Result<Draft, Status>
    decreases n,
{
    if n <= 0 {
        Ok(Draft { privilege: None, auth_mode: None, subjects: Seq::empty(), targets: Seq::empty() })
    } else {
        match draft_after(b, items, n - 1, s, t) {
            Err(status) => Err(status),
            Ok(d) => draft_with(b, d, items[n - 1], s, t),
        }
    }
}

proof fn lemma_draft_err(b: Seq<u8>, items: Seq<Element>, i: int, n: int, s: nat, t: nat)
    requires
        i <= n,
        draft_after(b, items, i, s, t) is Err,
    ensures
        draft_after(b, items, n, s, t) == draft_after(b, items, i, s, t),
    decreases n - i,
{
    if i < n {
        lemma_draft_err(b, items, i, n - 1, s, t);
    }
}

/// The entry of a fabric whose content starts at `pos`, or what is wrong with it: its elements in
/// order, then its end, then that it says what it grants and how a subject proves who it is.
pub open spec fn entry_at(b: Seq<u8>, pos: int, fabric: FabricIndex, s: nat, t: nat) -> Result<EntryModel, Status> {
    let scan = tlv::scan(b, pos);
    match draft_after(b, scan.items, scan.items.len() as int, s, t) {
        Err(status) => Err(status),
        Ok(d) => if !scan.complete {
            Err(Status::InvalidAction)
        } else {
            match (d.privilege, d.auth_mode) {
                (Some(privilege), Some(auth_mode)) => Ok(
                    EntryModel { fabric, privilege, auth_mode, subjects: d.subjects, targets: d.targets },
                ),
                _ => Err(Status::InvalidAction),
            }
        },
    }
}

/// An entry, as a value, or why there is none.
pub open spec fn read_entry<const S: usize, const T: usize>(r: Result<Entry<S, T>, Status>) -> Result<EntryModel, Status> {
    match r {
        Ok(e) => Ok(e@),
        Err(status) => Err(status),
    }
}

fn decode_entry<const S: usize, const T: usize>(data: &[u8], start: usize, fabric_index: FabricIndex) -> (r: Result<
    Entry<S, T>,
    Status,
>)
    requires
        start <= data@.len(),
    ensures
        read_entry(r) == entry_at(data@, start as int, fabric_index, S as nat, T as nat),
{
    let read: Items = tlv::read_items(data, start);
    let ghost items = read.items@;
    let ghost n = items.len() as int;
    let mut privilege: Option<Privilege> = None;
    let mut auth_mode: Option<AuthMode> = None;
    let mut subjects: List<NodeId, S> = List::new();
    let mut targets: List<Target, T> = List::new();
    let mut i: usize = 0;
    while i < read.items.len()
        invariant
            i <= read.items@.len(),
            items == read.items@,
            n == items.len(),
            items == tlv::scan(data@, start as int).items,
            forall|i: int| 0 <= i < read.items@.len() ==> tlv::inside(data@, #[trigger] read.items@[i]),
            draft_after(data@, items, i as int, S as nat, T as nat) == Ok::<Draft, Status>(
                Draft { privilege, auth_mode, subjects: subjects@, targets: targets@ },
            ),
        decreases read.items.len() - i,
    {
        let e: Element = read.items[i];
        let ghost step = draft_after(data@, items, i + 1, S as nat, T as nat);
        proof {
            assert(tlv::inside(data@, items[i as int]));
            assert(step == draft_with(
                data@,
                Draft { privilege, auth_mode, subjects: subjects@, targets: targets@ },
                e,
                S as nat,
                T as nat,
            ));
            if step is Err {
                lemma_draft_err(data@, items, i + 1, n, S as nat, T as nat);
            }
        }
        match e.context {
            Some(1) => {
                match e.value {
                    Value::Unsigned(v) => match privilege_from_value(v) {
                        Some(p) => {
                            privilege = Some(p);
                        },
                        None => return Err(Status::ConstraintError),
                    },
                    _ => return Err(Status::ConstraintError),
                }
            },
            Some(2) => {
                match e.value {
                    Value::Unsigned(v) => {
                        if v > 0xFF {
                            return Err(Status::ConstraintError);
                        }
                        match AuthMode::from_value(v as u8) {
                            Some(m) => {
                                auth_mode = Some(m);
                            },
                            None => return Err(Status::ConstraintError),
                        }
                    },
                    _ => return Err(Status::ConstraintError),
                }
            },
            Some(3) => {
                match e.value {
                    Value::Null => {},
                    Value::Container(ContainerKind::Array, at) => {
                        if let Err(status) = fields::read_onto(data, at, &mut subjects, Status::ResourceExhausted) {
                            return Err(status);
                        }
                    },
                    _ => return Err(Status::InvalidAction),
                }
            },
            Some(4) => {
                match e.value {
                    Value::Null => {},
                    Value::Container(ContainerKind::Array, at) => {
                        if let Err(status) = fields::read_onto(data, at, &mut targets, Status::ResourceExhausted) {
                            return Err(status);
                        }
                    },
                    _ => return Err(Status::InvalidAction),
                }
            },
            _ => {},
        }
        i = i + 1;
    }
    if !read.complete {
        return Err(Status::InvalidAction);
    }
    match (privilege, auth_mode) {
        (Some(privilege), Some(auth_mode)) => Ok(Entry { fabric_index, privilege, auth_mode, subjects, targets }),
        _ => Err(Status::InvalidAction),
    }
}

/// The entries that the first `n` items of a list are, at most `cap`, or what is wrong with the
/// first wrong one.
pub open spec fn entries_after(b: Seq<u8>, items: Seq<Element>, n: int, fabric: FabricIndex, s: nat, t: nat, cap: nat) -> Result<
    Seq<EntryModel>,
    Status,
>
    decreases n,
{
    if n <= 0 {
        Ok(Seq::empty())
    } else {
        match entries_after(b, items, n - 1, fabric, s, t, cap) {
            Err(status) => Err(status),
            Ok(before) => if !items[n - 1].is_structure() {
                Err(Status::InvalidAction)
            } else {
                match entry_at(b, items[n - 1].content(), fabric, s, t) {
                    Err(status) => Err(status),
                    Ok(e) => if before.len() >= cap {
                        Err(Status::ResourceExhausted)
                    } else {
                        Ok(before.push(e))
                    },
                }
            },
        }
    }
}

proof fn lemma_entries_err(b: Seq<u8>, items: Seq<Element>, i: int, n: int, fabric: FabricIndex, s: nat, t: nat, cap: nat)
    requires
        i <= n,
        entries_after(b, items, i, fabric, s, t, cap) is Err,
    ensures
        entries_after(b, items, n, fabric, s, t, cap) == entries_after(b, items, i, fabric, s, t, cap),
    decreases n - i,
{
    if i < n {
        lemma_entries_err(b, items, i, n - 1, fabric, s, t, cap);
    }
}

/// The entries of a list whose content starts at `pos`, or what is wrong with it.
pub open spec fn entries_at(b: Seq<u8>, pos: int, fabric: FabricIndex, s: nat, t: nat, cap: nat) -> Result<Seq<EntryModel>, Status> {
    let scan = tlv::scan(b, pos);
    match entries_after(b, scan.items, scan.items.len() as int, fabric, s, t, cap) {
        Err(status) => Err(status),
        Ok(entries) => if scan.complete {
            Ok(entries)
        } else {
            Err(Status::InvalidAction)
        },
    }
}

fn decode_entries<const N: usize, const S: usize, const T: usize>(data: &[u8], start: usize, fabric: FabricIndex) -> (r: Result<
    List<Entry<S, T>, N>,
    Status,
>)
    requires
        start <= data@.len(),
    ensures
        match r {
            Ok(list) => entries_at(data@, start as int, fabric, S as nat, T as nat, N as nat) == Ok::<
                Seq<EntryModel>,
                Status,
            >(list.models()),
            Err(status) => entries_at(data@, start as int, fabric, S as nat, T as nat, N as nat) == Err::<
                Seq<EntryModel>,
                Status,
            >(status),
        },
{
    let read: Items = tlv::read_items(data, start);
    let ghost items = read.items@;
    let ghost n = items.len() as int;
    let mut list: List<Entry<S, T>, N> = List::new();
    let mut i: usize = 0;
    proof {
        assert(list.models() =~= Seq::<EntryModel>::empty());
    }
    while i < read.items.len()
        invariant
            i <= read.items@.len(),
            items == read.items@,
            n == items.len(),
            items == tlv::scan(data@, start as int).items,
            forall|i: int| 0 <= i < read.items@.len() ==> tlv::inside(data@, #[trigger] read.items@[i]),
            entries_after(data@, items, i as int, fabric, S as nat, T as nat, N as nat) == Ok::<Seq<EntryModel>, Status>(
                list.models(),
            ),
        decreases read.items.len() - i,
    {
        proof {
            assert(tlv::inside(data@, items[i as int]));
            if entries_after(data@, items, i + 1, fabric, S as nat, T as nat, N as nat) is Err {
                lemma_entries_err(data@, items, i + 1, n, fabric, S as nat, T as nat, N as nat);
            }
        }
        let at: usize = match read.items[i].value {
            Value::Container(ContainerKind::Structure, at) => at,
            _ => return Err(Status::InvalidAction),
        };
        match decode_entry::<S, T>(data, at, fabric) {
            Err(status) => return Err(status),
            Ok(entry) => {
                if !list.add(entry) {
                    return Err(Status::ResourceExhausted);
                }
            },
        }
        i = i + 1;
    }
    if read.complete {
        Ok(list)
    } else {
        Err(Status::InvalidAction)
    }
}

/// The list and the changes that wait to be taken.
pub struct State {
    /// The list.
    pub acl: Seq<EntryModel>,
    /// The changes, the oldest first.
    pub pending: Seq<ChangeModel>,
}

/// What happened at position `i` when a list took another's place.
pub open spec fn change_at(ctx: InteractionContext, before: Seq<EntryModel>, after: Seq<EntryModel>, i: int) -> ChangeModel {
    if i < after.len() {
        if i < before.len() {
            change_by(ctx, ChangeType::Changed, Some(after[i]))
        } else {
            change_by(ctx, ChangeType::Added, Some(after[i]))
        }
    } else {
        change_by(ctx, ChangeType::Removed, Some(before[i]))
    }
}

/// The changes with those of the first `n` positions.
pub open spec fn recorded(pending: Seq<ChangeModel>, ctx: InteractionContext, before: Seq<EntryModel>, after: Seq<EntryModel>, n: int) -> Seq<
    ChangeModel,
>
    decreases n,
{
    if n <= 0 {
        pending
    } else {
        bounded::newest(recorded(pending, ctx, before, after, n - 1), change_at(ctx, before, after, n - 1), PENDING as nat)
    }
}

/// The longer of two lengths.
pub open spec fn longer(a: nat, b: nat) -> nat {
    if a < b {
        b
    } else {
        a
    }
}

/// How much there may be of what.
pub struct Sizes {
    /// Entries of one fabric.
    pub per_fabric: nat,
    /// Entries in all.
    pub total: nat,
    /// Subjects of one entry.
    pub subjects: nat,
    /// Targets of one entry.
    pub targets: nat,
}

/// What writing the list comes to: all of it, or one more entry. Where an entry of a list that could
/// be read may not stand there, those before it have taken their places, and nothing is recorded.
pub open spec fn written(st: State, z: Sizes, b: Seq<u8>, op: WriteOp, ctx: InteractionContext) -> (State, Option<Status>) {
    match ctx.fabric_index {
        None => (st, Some(Status::UnsupportedAccess)),
        Some(fabric) => match tlv::element_at(b, 0) {
            None => (st, Some(Status::InvalidAction)),
            Some((e, _)) => match op {
                WriteOp::Replace => if !e.is_array() {
                    (st, Some(Status::InvalidAction))
                } else {
                    match entries_at(b, e.content(), fabric, z.subjects, z.targets, z.total) {
                        Err(status) => (st, Some(status)),
                        Ok(entries) => match acl::replaced(st.acl, fabric, entries, z.per_fabric, z.total) {
                            (list, Some(_)) => (State { acl: list, ..st }, Some(Status::ConstraintError)),
                            (list, None) => {
                                let before = bounded::leading(st.acl.filter(acl::of_fabric(fabric)), PENDING as nat);
                                let after = bounded::leading(list.filter(acl::of_fabric(fabric)), PENDING as nat);
                                (
                                    State {
                                        acl: list,
                                        pending: recorded(
                                            st.pending,
                                            ctx,
                                            before,
                                            after,
                                            longer(before.len(), after.len()) as int,
                                        ),
                                    },
                                    None,
                                )
                            },
                        },
                    }
                },
                WriteOp::Append => if !e.is_structure() {
                    (st, Some(Status::InvalidAction))
                } else {
                    match entry_at(b, e.content(), fabric, z.subjects, z.targets) {
                        Err(status) => (st, Some(status)),
                        Ok(entry) => match acl::added(st.acl, entry, z.per_fabric, z.total) {
                            (_, Some(code)) => (
                                st,
                                Some(
                                    if code is NoSpace {
                                        Status::ResourceExhausted
                                    } else {
                                        Status::ConstraintError
                                    },
                                ),
                            ),
                            (list, None) => (
                                State {
                                    acl: list,
                                    pending: bounded::newest(
                                        st.pending,
                                        change_by(ctx, ChangeType::Added, Some(entry)),
                                        PENDING as nat,
                                    ),
                                },
                                None,
                            ),
                        },
                    }
                },
            },
        },
    }
}

/// Access Control over a node's list of at most `P` entries of one fabric and `N` in all, of at most
/// `S` subjects and `T` targets each.
#[verifier::reject_recursive_types(S)]
#[verifier::reject_recursive_types(T)]
pub struct AccessControl<const P: usize, const N: usize, const S: usize, const T: usize> {
    /// The list.
    pub acl: Acl<P, N, S, T>,
    /// The changes that wait to be taken.
    pub pending: List<EntryChanged<S, T>, PENDING>,
}

/// The entries among the first `n` that a read gives.
pub open spec fn visible_items(list: Seq<EntryModel>, ctx: InteractionContext, n: int) -> Seq<u8>
    decreases n,
{
    if n <= 0 {
        Seq::empty()
    } else {
        visible_items(list, ctx, n - 1) + (if ctx.sees(list[n - 1].fabric) {
            entry_bytes(Tag::Anonymous, list[n - 1])
        } else {
            Seq::empty()
        })
    }
}

/// What went wrong, where something did.
pub open spec fn refusal(r: Result<(), Status>) -> Option<Status> {
    match r {
        Ok(_) => None,
        Err(status) => Some(status),
    }
}

impl<const P: usize, const N: usize, const S: usize, const T: usize> AccessControl<P, N, S, T> {
    /// The list and the changes.
    pub open spec fn state(&self) -> State {
        State { acl: self.acl@, pending: self.pending.models() }
    }

    /// How much there may be of what.
    pub open spec fn sizes() -> Sizes {
        Sizes { per_fabric: P as nat, total: N as nat, subjects: S as nat, targets: T as nat }
    }

    /// A cluster over a list.
    pub fn new(acl: Acl<P, N, S, T>) -> (c: Self)
        ensures
            c.state() == (State { acl: acl@, pending: Seq::empty() }),
    {
        let pending: List<EntryChanged<S, T>, PENDING> = List::new();
        proof {
            assert(pending.models() =~= Seq::<ChangeModel>::empty());
        }
        AccessControl { acl, pending }
    }

    /// The list.
    pub fn acl(&self) -> (acl: &Acl<P, N, S, T>)
        ensures
            acl@ == self.acl@,
    {
        &self.acl
    }

    /// Adds the entry that a new fabric's administrator starts with, and records it as a change of
    /// that fabric.
    pub fn add_admin_for_fabric(&mut self, fabric: FabricIndex, subject: NodeId, ctx: &InteractionContext) -> (r: Result<
        (),
        ErrorCode,
    >)
        ensures
            S == 0 ==> r == Err::<(), ErrorCode>(ErrorCode::NoSpace) && final(self).state() == old(self).state(),
            S > 0 ==> match acl::added(old(self).acl@, acl::admin_entry(fabric, subject), P as nat, N as nat) {
                (_, Some(code)) => r == Err::<(), ErrorCode>(code) && final(self).state() == old(self).state(),
                (list, None) => r == Ok::<(), ErrorCode>(()) && final(self).state() == (State {
                    acl: list,
                    pending: bounded::newest(
                        old(self).pending.models(),
                        ChangeModel {
                            fabric,
                            ..change_by(*ctx, ChangeType::Added, Some(acl::admin_entry(fabric, subject)))
                        },
                        PENDING as nat,
                    ),
                }),
            },
    {
        if let Err(code) = self.acl.add_admin_for_fabric(fabric, subject) {
            return Err(code);
        }
        let entry: Option<Entry<S, T>> = acl::admin::<S, T>(fabric, subject);
        self.pending.record(EntryChanged::for_session(ctx, ChangeType::Added, entry).for_fabric(fabric));
        Ok(())
    }

    /// Takes the changes that wait.
    pub fn take_changes(&mut self) -> (changes: List<EntryChanged<S, T>, PENDING>)
        ensures
            changes.models() == old(self).pending.models(),
            final(self).state() == (State { pending: Seq::empty(), ..old(self).state() }),
    {
        let mut changes: List<EntryChanged<S, T>, PENDING> = List::new();
        proof {
            assert(changes.models() =~= Seq::<ChangeModel>::empty());
        }
        core::mem::swap(&mut changes, &mut self.pending);
        changes
    }

    fn read_acl(&self, ctx: &InteractionContext, tag: Tag) -> (out: Vec<u8>)
        ensures
            out@ == tlv::array_bytes(tag, visible_items(self.acl@, *ctx, self.acl@.len() as int)),
    {
        let items: &[Entry<S, T>] = self.acl.entries();
        let ghost models = self.acl@;
        let mut body: Vec<u8> = Vec::new();
        let mut i: usize = 0;
        while i < items.len()
            invariant
                i <= items@.len() == models.len(),
                models == bounded::models(items@),
                body@ == visible_items(models, *ctx, i as int),
            decreases items.len() - i,
        {
            proof {
                assert(models[i as int] == items@[i as int]@);
            }
            if ctx.visible(items[i].fabric_index) {
                write_entry(&mut body, Tag::Anonymous, &items[i]);
            } else {
                proof {
                    assert(body@ + Seq::<u8>::empty() =~= body@);
                }
            }
            i = i + 1;
        }
        let mut out: Vec<u8> = Vec::new();
        tlv::put_array(&mut out, tag, &body);
        proof {
            assert(out@ =~= tlv::array_bytes(tag, body@));
        }
        out
    }

    fn record_replacement(
        &mut self,
        ctx: &InteractionContext,
        before: &List<Entry<S, T>, PENDING>,
        after: &List<Entry<S, T>, PENDING>,
    )
        ensures
            final(self).acl@ == old(self).acl@,
            final(self).pending.models() == recorded(
                old(self).pending.models(),
                *ctx,
                before.models(),
                after.models(),
                longer(before.models().len(), after.models().len()) as int,
            ),
    {
        let mut i: usize = 0;
        let n: usize = if before.len() < after.len() { after.len() } else { before.len() };
        while i < n
            invariant
                i <= n,
                n == longer(before.models().len(), after.models().len()),
                self.acl@ == old(self).acl@,
                self.pending.models() == recorded(
                    old(self).pending.models(),
                    *ctx,
                    before.models(),
                    after.models(),
                    i as int,
                ),
            decreases n - i,
        {
            let change: EntryChanged<S, T> = if i < after.len() {
                proof {
                    assert(after.models()[i as int] == after@[i as int]@);
                }
                let entry: Entry<S, T> = after.get(i).copy();
                if i < before.len() {
                    EntryChanged::for_session(ctx, ChangeType::Changed, Some(entry))
                } else {
                    EntryChanged::for_session(ctx, ChangeType::Added, Some(entry))
                }
            } else {
                proof {
                    assert(before.models()[i as int] == before@[i as int]@);
                }
                EntryChanged::for_session(ctx, ChangeType::Removed, Some(before.get(i).copy()))
            };
            self.pending.record(change);
            i = i + 1;
        }
    }

    fn replace(&mut self, fabric: FabricIndex, entries: &List<Entry<S, T>, N>, ctx: &InteractionContext) -> (r: Result<(), Status>)
        ensures
            match acl::replaced(old(self).acl@, fabric, entries.models(), P as nat, N as nat) {
                (list, Some(_)) => r == Err::<(), Status>(Status::ConstraintError) && final(self).state() == (State {
                    acl: list,
                    ..old(self).state()
                }),
                (list, None) => {
                    let before = bounded::leading(old(self).acl@.filter(acl::of_fabric(fabric)), PENDING as nat);
                    let after = bounded::leading(list.filter(acl::of_fabric(fabric)), PENDING as nat);
                    r == Ok::<(), Status>(()) && final(self).state() == (State {
                        acl: list,
                        pending: recorded(
                            old(self).pending.models(),
                            *ctx,
                            before,
                            after,
                            longer(before.len(), after.len()) as int,
                        ),
                    })
                },
            },
    {
        let before: List<Entry<S, T>, PENDING> = self.acl.of_fabric(fabric);
        if self.acl.replace_fabric(fabric, entries.as_slice()).is_err() {
            return Err(Status::ConstraintError);
        }
        let after: List<Entry<S, T>, PENDING> = self.acl.of_fabric(fabric);
        self.record_replacement(ctx, &before, &after);
        Ok(())
    }

    fn append(&mut self, entry: Entry<S, T>, ctx: &InteractionContext) -> (r: Result<(), Status>)
        ensures
            match acl::added(old(self).acl@, entry@, P as nat, N as nat) {
                (_, Some(code)) => r == Err::<(), Status>(
                    if code is NoSpace {
                        Status::ResourceExhausted
                    } else {
                        Status::ConstraintError
                    },
                ) && final(self).state() == old(self).state(),
                (list, None) => r == Ok::<(), Status>(()) && final(self).state() == (State {
                    acl: list,
                    pending: bounded::newest(
                        old(self).pending.models(),
                        change_by(*ctx, ChangeType::Added, Some(entry@)),
                        PENDING as nat,
                    ),
                }),
            },
    {
        let copy: Entry<S, T> = entry.copy();
        match self.acl.add(entry) {
            Err(ErrorCode::NoSpace) => Err(Status::ResourceExhausted),
            Err(_) => Err(Status::ConstraintError),
            Ok(_) => {
                self.pending.record(EntryChanged::for_session(ctx, ChangeType::Added, Some(copy)));
                Ok(())
            },
        }
    }
}

impl<const P: usize, const N: usize, const S: usize, const T: usize> Cluster for AccessControl<P, N, S, T> {
    const ID: ClusterId = ID;
}

impl<const P: usize, const N: usize, const S: usize, const T: usize> ClusterHandler for AccessControl<P, N, S, T> {
    open spec fn answers(&self, resolved: Resolved, ctx: InteractionContext, tag: Tag, a: ReadAnswer) -> bool {
        a == if resolved.attribute == ACL {
            Ok(tlv::array_bytes(tag, visible_items(self.acl@, ctx, self.acl@.len() as int)))
        } else if resolved.attribute == SUBJECTS_PER_ENTRY {
            Ok(tlv::unsigned_bytes(tag, S as u64))
        } else if resolved.attribute == TARGETS_PER_ENTRY {
            Ok(tlv::unsigned_bytes(tag, T as u64))
        } else if resolved.attribute == ENTRIES_PER_FABRIC {
            Ok(tlv::unsigned_bytes(tag, P as u64))
        } else {
            Err::<Seq<u8>, Status>(Status::UnsupportedAttribute)
        }
    }

    open spec fn writes(
        before: &Self,
        after: &Self,
        resolved: Resolved,
        data: Seq<u8>,
        op: WriteOp,
        ctx: InteractionContext,
        r: Result<(), Status>,
    ) -> bool {
        (after.state(), refusal(r)) == if resolved.attribute != ACL {
            (before.state(), Some(Status::UnsupportedWrite))
        } else {
            written(before.state(), Self::sizes(), data, op, ctx)
        }
    }

    open spec fn invokes(
        before: &Self,
        after: &Self,
        resolved: ResolvedCommand,
        fields: Option<Seq<u8>>,
        ctx: InteractionContext,
        tag: Tag,
        a: InvokeAnswer,
    ) -> bool {
        *after == *before && a == im::refused(Status::UnsupportedCommand)
    }

    open spec fn outlives(before: &Self, after: &Self, event: Lifecycle) -> bool {
        let Lifecycle::FabricRemoved(fabric) = event;
        after.state() == (State { acl: before.acl@.filter(acl::not_of_fabric(fabric)), ..before.state() })
    }

    open spec fn unfit(&self, resolved: ResolvedCommand) -> Status {
        Status::Failure
    }

    fn answer(&self, resolved: &Resolved, ctx: &InteractionContext, tag: Tag) -> (a: Result<Vec<u8>, Status>) {
        let v: usize = match resolved.attribute {
            ACL => return Ok(self.read_acl(ctx, tag)),
            SUBJECTS_PER_ENTRY => S,
            TARGETS_PER_ENTRY => T,
            ENTRIES_PER_FABRIC => Acl::<P, N, S, T>::per_fabric(),
            _ => return Err(Status::UnsupportedAttribute),
        };
        let mut out: Vec<u8> = Vec::new();
        tlv::put_unsigned(&mut out, tag, v as u64);
        proof {
            assert(out@ =~= tlv::unsigned_bytes(tag, v as u64));
        }
        Ok(out)
    }

    fn write(&mut self, resolved: &Resolved, data: &[u8], op: WriteOp, ctx: &InteractionContext) -> (r: Result<(), Status>) {
        if resolved.attribute != ACL {
            return Err(Status::UnsupportedWrite);
        }
        let fabric: FabricIndex = match ctx.fabric_index {
            None => return Err(Status::UnsupportedAccess),
            Some(fabric) => fabric,
        };
        let e: Element = match tlv::read_element(data, 0) {
            None => return Err(Status::InvalidAction),
            Some((e, _)) => e,
        };
        match op {
            WriteOp::Replace => {
                let start: usize = match e.value {
                    Value::Container(ContainerKind::Array, start) => start,
                    _ => return Err(Status::InvalidAction),
                };
                match decode_entries::<N, S, T>(data, start, fabric) {
                    Err(status) => Err(status),
                    Ok(entries) => self.replace(fabric, &entries, ctx),
                }
            },
            WriteOp::Append => {
                let start: usize = match e.value {
                    Value::Container(ContainerKind::Structure, start) => start,
                    _ => return Err(Status::InvalidAction),
                };
                match decode_entry::<S, T>(data, start, fabric) {
                    Err(status) => Err(status),
                    Ok(entry) => self.append(entry, ctx),
                }
            },
        }
    }

    fn perform(
        &mut self,
        resolved: &ResolvedCommand,
        fields: Option<&[u8]>,
        ctx: &InteractionContext,
        tag: Tag,
    ) -> (a: Result<Reply, StatusIb>) {
        im::refuse(Status::UnsupportedCommand)
    }

    fn on_lifecycle(&mut self, event: Lifecycle) {
        let Lifecycle::FabricRemoved(fabric) = event;
        self.acl.remove_fabric(fabric);
    }

    fn unfit_status(&self, resolved: &ResolvedCommand) -> (s: Status) {
        Status::Failure
    }
}

/// The numbers on the wire stand for one privilege each.
pub proof fn law_wire_values_round_trip(p: Privilege, v: u64)
    ensures
        unwire(wire(p)) == Some(p),
        unwire(v) matches Some(q) ==> wire(q) == v,
{
}

/// Each change names a node or a passcode, and never both.
pub proof fn law_a_change_names_one_administrator(
    ctx: InteractionContext,
    change_type: ChangeType,
    latest: Option<EntryModel>,
)
    ensures
        (change_by(ctx, change_type, latest).admin_node_id is Some) != (change_by(
            ctx,
            change_type,
            latest,
        ).admin_passcode_id is Some),
{
}

/// No more changes wait than there is room for.
pub proof fn law_the_changes_stay_bounded(
    pending: Seq<ChangeModel>,
    ctx: InteractionContext,
    before: Seq<EntryModel>,
    after: Seq<EntryModel>,
    n: int,
)
    requires
        pending.len() <= PENDING,
    ensures
        recorded(pending, ctx, before, after, n).len() <= PENDING,
    decreases n,
{
    if n > 0 {
        law_the_changes_stay_bounded(pending, ctx, before, after, n - 1);
        bounded::law_newest_is_bounded(
            recorded(pending, ctx, before, after, n - 1),
            change_at(ctx, before, after, n - 1),
            PENDING as nat,
        );
    }
}

/// A write that is refused records nothing. It changes nothing either, unless it was a list whose
/// entries could be read: then the fabric has those before the one that may not stand there.
#[verifier::spinoff_prover]
pub proof fn law_a_refused_write_records_nothing(st: State, z: Sizes, b: Seq<u8>, op: WriteOp, ctx: InteractionContext)
    ensures
        ({
            let (after, refused) = written(st, z, b, op, ctx);
            refused is Some ==> {
                &&& after.pending == st.pending
                &&& after.acl == st.acl || (op is Replace && (ctx.fabric_index matches Some(fabric) && (tlv::element_at(
                    b,
                    0,
                ) matches Some((e, _)) && (entries_at(b, e.content(), fabric, z.subjects, z.targets, z.total) matches Ok(
                    entries,
                ) && exists|k: int| #![trigger entries.take(k)]
                    0 <= k < entries.len() && after.acl.filter(acl::of_fabric(fabric)) == entries.take(k)))))
            }
        }),
{
    if let (Some(fabric), Some((e, _))) = (ctx.fabric_index, tlv::element_at(b, 0)) {
        if op is Replace && e.is_array() {
            if let Ok(entries) = entries_at(b, e.content(), fabric, z.subjects, z.targets, z.total) {
                if acl::replaced(st.acl, fabric, entries, z.per_fabric, z.total).1 is Some {
                    acl::law_a_failed_replacement_leaves_the_beginning(st.acl, fabric, entries, z.per_fabric, z.total);
                }
            }
        }
    }
}

/// A write by one fabric leaves what every other fabric has.
pub proof fn law_a_write_stays_in_its_fabric(
    st: State,
    z: Sizes,
    b: Seq<u8>,
    op: WriteOp,
    ctx: InteractionContext,
    other: FabricIndex,
)
    requires
        ctx.fabric_index != Some(other),
    ensures
        written(st, z, b, op, ctx).0.acl.filter(acl::of_fabric(other)) == st.acl.filter(acl::of_fabric(other)),
{
    if let Some(fabric) = ctx.fabric_index {
        if let Some((e, _)) = tlv::element_at(b, 0) {
            match op {
                WriteOp::Replace => {
                    if let Ok(entries) = entries_at(b, e.content(), fabric, z.subjects, z.targets, z.total) {
                        acl::law_replacing_stays_in_the_fabric(st.acl, fabric, entries, z.per_fabric, z.total, other);
                    }
                },
                WriteOp::Append => {
                    if let Ok(entry) = entry_at(b, e.content(), fabric, z.subjects, z.targets) {
                        bounded::lemma_filter_push(st.acl, entry, acl::of_fabric(other));
                    }
                },
            }
        }
    }
}

/// A target that was written is read back.
proof fn lemma_target_back(b: Seq<u8>, pos: int, t: Target)
    requires
        tlv::stands(b, pos, target_bytes()(t)),
        b.len() <= usize::MAX,
        t.valid(),
    ensures
        tlv::whole(b, pos, target_bytes()(t)),
        tlv::element_at(b, pos) matches Some((e, _)) && Target::of(b, e) == Ok::<Target, Status>(t),
{
    let x0 = tlv::nullable_bytes(Tag::Context(0), wide32(t.cluster));
    let x1 = tlv::nullable_bytes(Tag::Context(1), wide16(t.endpoint));
    let x2 = tlv::nullable_bytes(Tag::Context(2), wide32(t.device_type));
    let pieces = seq![x0, x1, x2];
    let f = tlv::itself();
    let at = pos + 1;
    lemma_three(x0, x1, x2);
    assert forall|i: int, p: int| 0 <= i < pieces.len() && #[trigger] tlv::stands(b, p, pieces[i]) implies tlv::whole(
        b,
        p,
        pieces[i],
    ) by {
        if i == 0 {
            tlv::lemma_whole_nullable(b, p, Tag::Context(0), wide32(t.cluster));
        } else if i == 1 {
            tlv::lemma_whole_nullable(b, p, Tag::Context(1), wide16(t.endpoint));
        } else {
            tlv::lemma_whole_nullable(b, p, Tag::Context(2), wide32(t.device_type));
        }
    }
    tlv::lemma_structure_of_pieces(b, pos, Tag::Anonymous, pieces);
    tlv::lemma_concat_element(b, at, pieces, f, 0);
    tlv::lemma_concat_element(b, at, pieces, f, 1);
    tlv::lemma_concat_element(b, at, pieces, f, 2);
    tlv::lemma_whole_nullable(b, at + tlv::concat(pieces.take(0), f).len(), Tag::Context(0), wide32(t.cluster));
    tlv::lemma_whole_nullable(b, at + tlv::concat(pieces.take(1), f).len(), Tag::Context(1), wide16(t.endpoint));
    tlv::lemma_whole_nullable(b, at + tlv::concat(pieces.take(2), f).len(), Tag::Context(2), wide32(t.device_type));
    tlv::lemma_concat_elements_len(b, at, pieces, f);
    lemma_three_elements(tlv::scan(b, at).items, t);
}

proof fn lemma_three(x0: Seq<u8>, x1: Seq<u8>, x2: Seq<u8>)
    ensures
        tlv::concat(seq![x0, x1, x2], tlv::itself()) == x0 + x1 + x2,
{
    let all = seq![x0, x1, x2];
    let two = all.drop_last();
    let one = two.drop_last();
    assert(one.drop_last() =~= Seq::<Seq<u8>>::empty());
    reveal_with_fuel(tlv::concat, 4);
    assert(Seq::<u8>::empty() + x0 =~= x0);
}

/// The elements of a target give it back.
proof fn lemma_three_elements(items: Seq<Element>, t: Target)
    requires
        items.len() == 3,
        items[0].context == Some(0u8),
        items[1].context == Some(1u8),
        items[2].context == Some(2u8),
        items[0].value == nullable_value(wide32(t.cluster)),
        items[1].value == nullable_value(wide16(t.endpoint)),
        items[2].value == nullable_value(wide32(t.device_type)),
    ensures
        target_after(items, 3) == Ok::<Target, Status>(t),
{
    reveal_with_fuel(target_after, 4);
}

/// What a number, or null, is as a value.
spec fn nullable_value(v: Option<u64>) -> Value {
    match v {
        Some(v) => Value::Unsigned(v),
        None => Value::Null,
    }
}

/// The fields of an entry.
spec fn entry_pieces(e: EntryModel) -> Seq<Seq<u8>> {
    seq![
        tlv::unsigned_bytes(Tag::Context(1), wire(e.privilege)),
        tlv::unsigned_bytes(Tag::Context(2), acl::auth_value(e.auth_mode) as u64),
        if e.subjects.len() == 0 {
            tlv::null_bytes(Tag::Context(3))
        } else {
            tlv::array_bytes(Tag::Context(3), tlv::concat(e.subjects, subject_bytes()))
        },
        if e.targets.len() == 0 {
            tlv::null_bytes(Tag::Context(4))
        } else {
            tlv::array_bytes(Tag::Context(4), tlv::concat(e.targets, target_bytes()))
        },
        tlv::unsigned_bytes(Tag::Context(FABRIC_INDEX_FIELD), e.fabric.0 as u64),
    ]
}

proof fn lemma_entry_pieces(tag: Tag, e: EntryModel)
    ensures
        entry_bytes(tag, e) == tlv::structure_bytes(tag, tlv::concat(entry_pieces(e), tlv::itself())),
{
    let all = entry_pieces(e);
    let f4 = all.drop_last();
    let f3 = f4.drop_last();
    let f2 = f3.drop_last();
    let f1 = f2.drop_last();
    assert(f1.drop_last() =~= Seq::<Seq<u8>>::empty());
    reveal_with_fuel(tlv::concat, 6);
    assert(Seq::<u8>::empty() + all[0] =~= all[0]);
}

/// The subjects of an entry that were written are read back.
proof fn lemma_subjects_back(b: Seq<u8>, pos: int, e: EntryModel, s: nat)
    requires
        tlv::stands(b, pos, entry_pieces(e)[2]),
        b.len() <= usize::MAX,
        e.subjects.len() <= s,
    ensures
        tlv::whole(b, pos, entry_pieces(e)[2]),
        tlv::element_at(b, pos) matches Some((x, _)) && x.context == Some(3u8) && (if e.subjects.len() == 0 {
            x.value is Null
        } else {
            x.is_array() && fields::list_onto(b, x.content(), Seq::<NodeId>::empty(), s, Status::ResourceExhausted) == Ok::<
                Seq<NodeId>,
                Status,
            >(e.subjects)
        }),
{
    if e.subjects.len() == 0 {
        tlv::lemma_whole_nullable(b, pos, Tag::Context(3), None);
    } else {
        assert forall|i: int, p: int|
            0 <= i < e.subjects.len() && #[trigger] tlv::stands(b, p, subject_bytes()(e.subjects[i])) implies tlv::whole(
            b,
            p,
            subject_bytes()(e.subjects[i]),
        ) && (tlv::element_at(b, p) matches Some((x, _)) && NodeId::of(b, x) == Ok::<NodeId, Status>(e.subjects[i])) by {
            tlv::lemma_whole_unsigned(b, p, Tag::Anonymous, e.subjects[i].0);
        }
        tlv::lemma_array_of_items(b, pos, Tag::Context(3), e.subjects, subject_bytes());
        fields::lemma_list_back(b, pos + 2, e.subjects, subject_bytes(), s, Status::ResourceExhausted);
    }
}

/// The targets of an entry that were written are read back.
proof fn lemma_targets_back(b: Seq<u8>, pos: int, e: EntryModel, t: nat)
    requires
        tlv::stands(b, pos, entry_pieces(e)[3]),
        b.len() <= usize::MAX,
        e.targets.len() <= t,
        forall|i: int| 0 <= i < e.targets.len() ==> (#[trigger] e.targets[i]).valid(),
    ensures
        tlv::whole(b, pos, entry_pieces(e)[3]),
        tlv::element_at(b, pos) matches Some((x, _)) && x.context == Some(4u8) && (if e.targets.len() == 0 {
            x.value is Null
        } else {
            x.is_array() && fields::list_onto(b, x.content(), Seq::<Target>::empty(), t, Status::ResourceExhausted) == Ok::<
                Seq<Target>,
                Status,
            >(e.targets)
        }),
{
    if e.targets.len() == 0 {
        tlv::lemma_whole_nullable(b, pos, Tag::Context(4), None);
    } else {
        assert forall|i: int, p: int|
            0 <= i < e.targets.len() && #[trigger] tlv::stands(b, p, target_bytes()(e.targets[i])) implies tlv::whole(
            b,
            p,
            target_bytes()(e.targets[i]),
        ) && (tlv::element_at(b, p) matches Some((x, _)) && Target::of(b, x) == Ok::<Target, Status>(e.targets[i])) by {
            lemma_target_back(b, p, e.targets[i]);
        }
        tlv::lemma_array_of_items(b, pos, Tag::Context(4), e.targets, target_bytes());
        fields::lemma_list_back(b, pos + 2, e.targets, target_bytes(), t, Status::ResourceExhausted);
    }
}

/// The elements of an entry give it back.
proof fn lemma_five_elements(b: Seq<u8>, items: Seq<Element>, e: EntryModel, s: nat, t: nat)
    requires
        items.len() == 5,
        items[0] == (Element { context: Some(1u8), value: Value::Unsigned(wire(e.privilege)) }),
        items[1] == (Element { context: Some(2u8), value: Value::Unsigned(acl::auth_value(e.auth_mode) as u64) }),
        items[2].context == Some(3u8),
        if e.subjects.len() == 0 {
            items[2].value is Null
        } else {
            items[2].is_array() && fields::list_onto(
                b,
                items[2].content(),
                Seq::<NodeId>::empty(),
                s,
                Status::ResourceExhausted,
            ) == Ok::<Seq<NodeId>, Status>(e.subjects)
        },
        items[3].context == Some(4u8),
        if e.targets.len() == 0 {
            items[3].value is Null
        } else {
            items[3].is_array() && fields::list_onto(
                b,
                items[3].content(),
                Seq::<Target>::empty(),
                t,
                Status::ResourceExhausted,
            ) == Ok::<Seq<Target>, Status>(e.targets)
        },
        items[4].context == Some(FABRIC_INDEX_FIELD),
    ensures
        draft_after(b, items, 5, s, t) == Ok::<Draft, Status>(
            Draft {
                privilege: Some(e.privilege),
                auth_mode: Some(e.auth_mode),
                subjects: e.subjects,
                targets: e.targets,
            },
        ),
{
    law_wire_values_round_trip(e.privilege, wire(e.privilege));
    assert(acl::auth_of(acl::auth_value(e.auth_mode)) == Some(e.auth_mode));
    let none = Draft { privilege: None, auth_mode: None, subjects: Seq::empty(), targets: Seq::empty() };
    let d1 = Draft { privilege: Some(e.privilege), ..none };
    let d2 = Draft { auth_mode: Some(e.auth_mode), ..d1 };
    assert(draft_after(b, items, 0, s, t) == Ok::<Draft, Status>(none));
    assert(draft_after(b, items, 1, s, t) == Ok::<Draft, Status>(d1));
    assert(draft_after(b, items, 2, s, t) == Ok::<Draft, Status>(d2));
    if e.subjects.len() == 0 {
        assert(e.subjects =~= Seq::<NodeId>::empty());
    }
    if e.targets.len() == 0 {
        assert(e.targets =~= Seq::<Target>::empty());
    }
    let d3 = Draft { subjects: e.subjects, ..d2 };
    assert(draft_after(b, items, 3, s, t) == Ok::<Draft, Status>(d3));
    assert(draft_after(b, items, 4, s, t) == Ok::<Draft, Status>(Draft { targets: e.targets, ..d3 }));
}

/// An entry that a read gave is the same entry where it is written: wherever it stands in data that
/// memory can hold, for an entry that may stand in a list whose entries are large enough.
pub proof fn law_an_entry_round_trip(b: Seq<u8>, pos: int, e: EntryModel, s: nat, t: nat)
    requires
        tlv::stands(b, pos, entry_bytes(Tag::Anonymous, e)),
        b.len() <= usize::MAX,
        e.valid(),
        e.subjects.len() <= s,
        e.targets.len() <= t,
    ensures
        tlv::whole(b, pos, entry_bytes(Tag::Anonymous, e)),
        tlv::element_at(b, pos) matches Some((x, _)) && x.is_structure() && entry_at(b, x.content(), e.fabric, s, t) == Ok::<
            EntryModel,
            Status,
        >(e),
{
    let pieces = entry_pieces(e);
    let f = tlv::itself();
    let at = pos + 1;
    lemma_entry_pieces(Tag::Anonymous, e);
    assert forall|i: int, p: int| 0 <= i < pieces.len() && #[trigger] tlv::stands(b, p, pieces[i]) implies tlv::whole(
        b,
        p,
        pieces[i],
    ) by {
        if i == 0 {
            tlv::lemma_whole_unsigned(b, p, Tag::Context(1), wire(e.privilege));
        } else if i == 1 {
            tlv::lemma_whole_unsigned(b, p, Tag::Context(2), acl::auth_value(e.auth_mode) as u64);
        } else if i == 2 {
            lemma_subjects_back(b, p, e, s);
        } else if i == 3 {
            lemma_targets_back(b, p, e, t);
        } else {
            tlv::lemma_whole_unsigned(b, p, Tag::Context(FABRIC_INDEX_FIELD), e.fabric.0 as u64);
        }
    }
    tlv::lemma_structure_of_pieces(b, pos, Tag::Anonymous, pieces);
    tlv::lemma_concat_element(b, at, pieces, f, 0);
    tlv::lemma_concat_element(b, at, pieces, f, 1);
    tlv::lemma_concat_element(b, at, pieces, f, 2);
    tlv::lemma_concat_element(b, at, pieces, f, 3);
    tlv::lemma_concat_element(b, at, pieces, f, 4);
    tlv::lemma_whole_unsigned(b, at + tlv::concat(pieces.take(0), f).len(), Tag::Context(1), wire(e.privilege));
    tlv::lemma_whole_unsigned(
        b,
        at + tlv::concat(pieces.take(1), f).len(),
        Tag::Context(2),
        acl::auth_value(e.auth_mode) as u64,
    );
    lemma_subjects_back(b, at + tlv::concat(pieces.take(2), f).len(), e, s);
    lemma_targets_back(b, at + tlv::concat(pieces.take(3), f).len(), e, t);
    tlv::lemma_whole_unsigned(
        b,
        at + tlv::concat(pieces.take(4), f).len(),
        Tag::Context(FABRIC_INDEX_FIELD),
        e.fabric.0 as u64,
    );
    tlv::lemma_concat_elements_len(b, at, pieces, f);
    lemma_five_elements(b, tlv::scan(b, at).items, e, s, t);
}

/// How each entry of a list is encoded.
pub open spec fn encoding() -> spec_fn(EntryModel) -> Seq<u8> {
    |e: EntryModel| entry_bytes(Tag::Anonymous, e)
}

/// Whether entries are no larger than a list's may be.
pub open spec fn within(entries: Seq<EntryModel>, s: nat, t: nat) -> bool {
    forall|i: int|
        0 <= i < entries.len() ==> (#[trigger] entries[i]).subjects.len() <= s && entries[i].targets.len() <= t
}

proof fn lemma_entries_back(
    b: Seq<u8>,
    at: int,
    entries: Seq<EntryModel>,
    items: Seq<Element>,
    n: int,
    fabric: FabricIndex,
    s: nat,
    t: nat,
    cap: nat,
)
    requires
        tlv::stands(b, at, tlv::concat(entries, encoding())),
        b.len() <= usize::MAX,
        items == tlv::concat_elements(b, at, entries, encoding()),
        items.len() == entries.len() <= cap,
        0 <= n <= entries.len(),
        acl::all_valid(entries, fabric),
        within(entries, s, t),
    ensures
        entries_after(b, items, n, fabric, s, t, cap) == Ok::<Seq<EntryModel>, Status>(entries.take(n)),
    decreases n,
{
    if n > 0 {
        lemma_entries_back(b, at, entries, items, n - 1, fabric, s, t, cap);
        tlv::lemma_concat_element(b, at, entries, encoding(), n - 1);
        law_an_entry_round_trip(b, at + tlv::concat(entries.take(n - 1), encoding()).len(), entries[n - 1], s, t);
        assert(entries.take(n) =~= entries.take(n - 1).push(entries[n - 1]));
    } else {
        assert(entries.take(0) =~= Seq::<EntryModel>::empty());
    }
}

/// A list of a fabric's entries that a read gave is the same list where it is written: entries that
/// may stand in a list, in data that memory can hold.
#[verifier::spinoff_prover]
pub proof fn law_a_list_round_trip(tag: Tag, entries: Seq<EntryModel>, fabric: FabricIndex, s: nat, t: nat, cap: nat)
    requires
        tlv::array_bytes(tag, tlv::concat(entries, encoding())).len() <= usize::MAX,
        acl::all_valid(entries, fabric),
        within(entries, s, t),
        entries.len() <= cap,
    ensures
        ({
            let b = tlv::array_bytes(tag, tlv::concat(entries, encoding()));
            tlv::element_at(b, 0) matches Some((e, _)) && e.is_array() && entries_at(b, e.content(), fabric, s, t, cap) == Ok::<
                Seq<EntryModel>,
                Status,
            >(entries)
        }),
{
    let b = tlv::array_bytes(tag, tlv::concat(entries, encoding()));
    assert(b.subrange(0, b.len() as int) =~= b);
    assert forall|i: int, p: int| 0 <= i < entries.len() && #[trigger] tlv::stands(b, p, encoding()(entries[i])) implies tlv::whole(
        b,
        p,
        encoding()(entries[i]),
    ) by {
        law_an_entry_round_trip(b, p, entries[i], s, t);
    }
    tlv::lemma_array_of_items(b, 0, tag, entries, encoding());
    let at = tlv::header(tag, 0x15).len() as int;
    tlv::lemma_concat_elements_len(b, at, entries, encoding());
    lemma_entries_back(
        b,
        at,
        entries,
        tlv::concat_elements(b, at, entries, encoding()),
        entries.len() as int,
        fabric,
        s,
        t,
        cap,
    );
    assert(entries.take(entries.len() as int) =~= entries);
}

/// A read that is filtered by fabric shows the entries of that fabric, in order, and no others.
pub proof fn law_a_read_shows_its_own_fabric(list: Seq<EntryModel>, ctx: InteractionContext, fabric: FabricIndex, n: int)
    requires
        ctx.fabric_filtered,
        ctx.fabric_index == Some(fabric),
        0 <= n <= list.len(),
    ensures
        visible_items(list, ctx, n) == tlv::concat(list.take(n).filter(acl::of_fabric(fabric)), encoding()),
    decreases n,
{
    reveal(Seq::filter);
    if n > 0 {
        law_a_read_shows_its_own_fabric(list, ctx, fabric, n - 1);
        let kept = list.take(n - 1).filter(acl::of_fabric(fabric));
        bounded::lemma_filter_take(list, n - 1, acl::of_fabric(fabric));
        if list[n - 1].fabric == fabric {
            tlv::lemma_concat_push(kept, list[n - 1], encoding());
        } else {
            assert(visible_items(list, ctx, n - 1) + Seq::<u8>::empty() =~= visible_items(list, ctx, n - 1));
        }
    }
}

proof fn lemma_split(list: Seq<EntryModel>, fabric: FabricIndex)
    ensures
        list.filter(acl::of_fabric(fabric)).len() + list.filter(acl::not_of_fabric(fabric)).len() == list.len(),
    decreases list.len(),
{
    reveal(Seq::filter);
    if list.len() > 0 {
        lemma_split(list.drop_last(), fabric);
    }
}

/// An administrator that reads its fabric's entries and writes them back keeps them: in a list of
/// entries that may stand there, within the fabric's share, in data that memory can hold.
#[verifier::spinoff_prover]
pub proof fn law_writing_back_what_was_read(st: State, z: Sizes, ctx: InteractionContext, fabric: FabricIndex)
    requires
        ctx.fabric_filtered,
        ctx.fabric_index == Some(fabric),
        acl::all_valid(st.acl.filter(acl::of_fabric(fabric)), fabric),
        within(st.acl.filter(acl::of_fabric(fabric)), z.subjects, z.targets),
        bounded::count(st.acl, acl::of_fabric(fabric)) <= z.per_fabric,
        st.acl.len() <= z.total,
        tlv::array_bytes(Tag::Anonymous, visible_items(st.acl, ctx, st.acl.len() as int)).len() <= usize::MAX,
    ensures
        ({
            let b = tlv::array_bytes(Tag::Anonymous, visible_items(st.acl, ctx, st.acl.len() as int));
            let (after, refused) = written(st, z, b, WriteOp::Replace, ctx);
            &&& refused is None
            &&& after.acl == st.acl.filter(acl::not_of_fabric(fabric)) + st.acl.filter(acl::of_fabric(fabric))
        }),
{
    let own = st.acl.filter(acl::of_fabric(fabric));
    law_a_read_shows_its_own_fabric(st.acl, ctx, fabric, st.acl.len() as int);
    assert(st.acl.take(st.acl.len() as int) =~= st.acl);
    lemma_split(st.acl, fabric);
    let replaced = acl::replaced(st.acl, fabric, own, z.per_fabric, z.total);
    assert(replaced.1 is None && replaced.0 == st.acl.filter(acl::not_of_fabric(fabric)) + own) by {
        acl::law_what_a_replacement_leaves(st.acl, fabric, own, z.per_fabric, z.total);
    }
    law_a_list_round_trip(Tag::Anonymous, own, fabric, z.subjects, z.targets, z.total);
}

/// What a fabric wrote is what it reads: the list of the entries that the data held.
#[verifier::spinoff_prover]
pub proof fn law_a_write_is_read_back(st: State, z: Sizes, b: Seq<u8>, ctx: InteractionContext, fabric: FabricIndex)
    requires
        ctx.fabric_filtered,
        ctx.fabric_index == Some(fabric),
        written(st, z, b, WriteOp::Replace, ctx).1 is None,
    ensures
        ({
            let after = written(st, z, b, WriteOp::Replace, ctx).0.acl;
            tlv::element_at(b, 0) matches Some((e, _)) && (entries_at(b, e.content(), fabric, z.subjects, z.targets, z.total)
                matches Ok(new) && visible_items(after, ctx, after.len() as int) == tlv::concat(new, encoding()))
        }),
{
    let (e, _) = tlv::element_at(b, 0)->Some_0;
    let new = entries_at(b, e.content(), fabric, z.subjects, z.targets, z.total)->Ok_0;
    let after = st.acl.filter(acl::not_of_fabric(fabric)) + new;
    assert(written(st, z, b, WriteOp::Replace, ctx).0.acl == after && after.filter(acl::of_fabric(fabric)) == new) by {
        acl::law_what_a_replacement_leaves(st.acl, fabric, new, z.per_fabric, z.total);
    }
    assert(visible_items(after, ctx, after.len() as int) == tlv::concat(new, encoding())) by {
        law_a_read_shows_its_own_fabric(after, ctx, fabric, after.len() as int);
        assert(after.take(after.len() as int) =~= after);
    }
}

/// An entry that is appended comes after those that its fabric has, so that clearing the list and
/// appending to it entry by entry writes the whole.
pub proof fn law_an_append_adds_at_the_end(st: State, z: Sizes, b: Seq<u8>, ctx: InteractionContext, fabric: FabricIndex)
    requires
        ctx.fabric_index == Some(fabric),
        written(st, z, b, WriteOp::Append, ctx).1 is None,
    ensures
        ({
            let own = st.acl.filter(acl::of_fabric(fabric));
            let after = written(st, z, b, WriteOp::Append, ctx).0.acl;
            tlv::element_at(b, 0) matches Some((e, _)) && (entry_at(b, e.content(), fabric, z.subjects, z.targets) matches Ok(
                entry,
            ) && after.filter(acl::of_fabric(fabric)) == own.push(entry))
        }),
{
    let (e, _) = tlv::element_at(b, 0)->Some_0;
    let entry = entry_at(b, e.content(), fabric, z.subjects, z.targets)->Ok_0;
    bounded::lemma_filter_push(st.acl, entry, acl::of_fabric(fabric));
}

/// A change as it is recorded: who made it, by node where that is known and by passcode where it is not, and on which fabric.
pub open spec fn made_by(ctx: InteractionContext, change_type: ChangeType, entry: EntryModel, c: ChangeModel) -> bool {
    &&& c.admin_node_id == ctx.peer_node_id
    &&& c.admin_passcode_id == (if ctx.peer_node_id is Some { None } else { Some(0u16) })
    &&& c.change_type == change_type
    &&& c.latest_value == Some(entry)
    &&& ctx.fabric_index == Some(c.fabric)
}

proof fn lemma_recorded(pending: Seq<ChangeModel>, ctx: InteractionContext, before: Seq<EntryModel>, after: Seq<EntryModel>, n: int)
    requires
        0 <= n,
        pending.len() + n <= 8,
    ensures
        ({
            let r = recorded(pending, ctx, before, after, n);
            &&& r.len() == pending.len() + n
            &&& pending.is_prefix_of(r)
            &&& forall|i: int| 0 <= i < n ==> #[trigger] r[pending.len() + i] == change_at(ctx, before, after, i)
        }),
    decreases n,
{
    if n > 0 {
        lemma_recorded(pending, ctx, before, after, n - 1);
        let was = recorded(pending, ctx, before, after, n - 1);
        let r = recorded(pending, ctx, before, after, n);
        assert(r =~= was.push(change_at(ctx, before, after, n - 1)));
        assert forall|i: int| 0 <= i < n implies #[trigger] r[pending.len() + i] == change_at(ctx, before, after, i) by {
            if i < n - 1 {
                assert(was[pending.len() + i] == change_at(ctx, before, after, i));
            }
        }
    }
}

/// A list that takes another's place is recorded position by position, where all of it finds room behind what waits: an entry
/// that was there and is there as changed, one that was not as added, one that is not any more as removed with what it was.
pub proof fn law_every_change_is_recorded<const P: usize, const N: usize, const S: usize, const T: usize>(
    before: AccessControl<P, N, S, T>,
    after: AccessControl<P, N, S, T>,
    resolved: Resolved,
    b: Seq<u8>,
    ctx: InteractionContext,
    fabric: FabricIndex,
    r: Result<(), Status>,
)
    requires
        AccessControl::writes(&before, &after, resolved, b, WriteOp::Replace, ctx, r),
        resolved.attribute == 0x0000,
        ctx.fabric_index == Some(fabric),
        r is Ok,
        before.pending.models().len() + before.acl@.filter(|e: EntryModel| e.fabric == fabric).len() <= 8,
        before.pending.models().len() + after.acl@.filter(|e: EntryModel| e.fabric == fabric).len() <= 8,
    ensures
        ({
            let was = before.acl@.filter(|e: EntryModel| e.fabric == fabric);
            let now = after.acl@.filter(|e: EntryModel| e.fabric == fabric);
            let waiting = before.pending.models();
            let told = after.pending.models();
            &&& waiting.is_prefix_of(told)
            &&& told.len() == waiting.len() + (if was.len() < now.len() { now.len() } else { was.len() })
            &&& forall|i: int|
                0 <= i < told.len() - waiting.len() ==> {
                    let c = #[trigger] told[waiting.len() + i];
                    if i >= now.len() {
                        made_by(ctx, ChangeType::Removed, was[i], c)
                    } else if i >= was.len() {
                        made_by(ctx, ChangeType::Added, now[i], c)
                    } else {
                        made_by(ctx, ChangeType::Changed, now[i], c)
                    }
                }
        }),
{
    assert(acl::of_fabric(fabric) =~= |e: EntryModel| e.fabric == fabric);
    let was = before.acl@.filter(acl::of_fabric(fabric));
    let now = after.acl@.filter(acl::of_fabric(fabric));
    lemma_recorded(before.pending.models(), ctx, was, now, longer(was.len(), now.len()) as int);
}

/// An entry that is appended stands at the end of the list, and is recorded as added, the last of what waits.
pub proof fn law_an_append_is_recorded<const P: usize, const N: usize, const S: usize, const T: usize>(
    before: AccessControl<P, N, S, T>,
    after: AccessControl<P, N, S, T>,
    resolved: Resolved,
    b: Seq<u8>,
    ctx: InteractionContext,
    fabric: FabricIndex,
    r: Result<(), Status>,
)
    requires
        AccessControl::writes(&before, &after, resolved, b, WriteOp::Append, ctx, r),
        resolved.attribute == 0x0000,
        ctx.fabric_index == Some(fabric),
        before.pending.models().len() <= 8,
    ensures
        r is Err ==> after.acl@ == before.acl@ && after.pending.models() == before.pending.models(),
        r is Ok ==> {
            let e = after.acl@.last();
            let told = after.pending.models();
            &&& after.acl@ == before.acl@.push(e) && e.fabric == fabric && e.valid()
            &&& told.len() > 0 && made_by(ctx, ChangeType::Added, e, told.last())
            &&& before.pending.models().len() < 8 ==> told.drop_last() == before.pending.models()
            &&& before.pending.models().len() == 8 ==> told.drop_last() == before.pending.models().skip(1)
        },
        tlv::element_at(b, 0) matches Some((e, _)) ==> (e.is_structure() ==> match entry_at(b, e.content(), fabric, S as nat, T as nat) {
            Err(status) => r == Err::<(), Status>(status),
            Ok(entry) => {
                let full = before.acl@.filter(|x: EntryModel| x.fabric == fabric).len() >= P || before.acl@.len() >= N;
                &&& r is Ok ==> after.acl@.last() == entry
                &&& if !entry.valid() {
                    r == Err::<(), Status>(Status::ConstraintError)
                } else if full {
                    r == Err::<(), Status>(Status::ResourceExhausted)
                } else {
                    r is Ok
                }
            },
        }),
{
    assert(acl::of_fabric(fabric) =~= |x: EntryModel| x.fabric == fabric);
    if r is Ok {
        let told = after.pending.models();
        let waiting = before.pending.models();
        if waiting.len() < 8 {
            assert(told.drop_last() =~= waiting);
        } else {
            assert(told.drop_last() =~= waiting.skip(1));
        }
    }
}

/// What an entry and a change show of themselves on the wire.
pub proof fn law_entries_and_changes_are_shown(tag: Tag, e: EntryModel, c: ChangeModel)
    ensures
        entry_bytes(tag, e) == tlv::structure_bytes(
            tag,
            tlv::unsigned_bytes(
                Tag::Context(1),
                match e.privilege {
                    Privilege::View => 1,
                    Privilege::ProxyView => 2,
                    Privilege::Operate => 3,
                    Privilege::Manage => 4,
                    Privilege::Administer => 5,
                },
            ) + tlv::unsigned_bytes(
                Tag::Context(2),
                match e.auth_mode {
                    AuthMode::Pase => 1,
                    AuthMode::Case => 2,
                    AuthMode::Group => 3,
                },
            ) + (if e.subjects.len() == 0 {
                tlv::null_bytes(Tag::Context(3))
            } else {
                tlv::array_bytes(Tag::Context(3), tlv::concat(e.subjects, subject_bytes()))
            }) + (if e.targets.len() == 0 {
                tlv::null_bytes(Tag::Context(4))
            } else {
                tlv::array_bytes(Tag::Context(4), tlv::concat(e.targets, target_bytes()))
            }) + tlv::unsigned_bytes(Tag::Context(254), e.fabric.0 as u64),
        ),
        forall|s: NodeId| #[trigger] subject_bytes()(s) == tlv::unsigned_bytes(Tag::Anonymous, s.0),
        forall|t: Target| #[trigger] target_bytes()(t) == tlv::structure_bytes(
            Tag::Anonymous,
            (match t.cluster {
                Some(v) => tlv::unsigned_bytes(Tag::Context(0), v as u64),
                None => tlv::null_bytes(Tag::Context(0)),
            }) + (match t.endpoint {
                Some(v) => tlv::unsigned_bytes(Tag::Context(1), v as u64),
                None => tlv::null_bytes(Tag::Context(1)),
            }) + (match t.device_type {
                Some(v) => tlv::unsigned_bytes(Tag::Context(2), v as u64),
                None => tlv::null_bytes(Tag::Context(2)),
            }),
        ),
        change_bytes(tag, c) == tlv::structure_bytes(
            tag,
            (match c.admin_node_id {
                Some(v) => tlv::unsigned_bytes(Tag::Context(1), v.0),
                None => tlv::null_bytes(Tag::Context(1)),
            }) + (match c.admin_passcode_id {
                Some(v) => tlv::unsigned_bytes(Tag::Context(2), v as u64),
                None => tlv::null_bytes(Tag::Context(2)),
            }) + tlv::unsigned_bytes(
                Tag::Context(3),
                match c.change_type {
                    ChangeType::Changed => 0,
                    ChangeType::Added => 1,
                    ChangeType::Removed => 2,
                },
            ) + (match c.latest_value {
                Some(e) => entry_bytes(Tag::Context(4), e),
                None => tlv::null_bytes(Tag::Context(4)),
            }) + tlv::unsigned_bytes(Tag::Context(254), c.fabric.0 as u64),
        ),
{
}

proof fn lemma_visible(list: Seq<EntryModel>, ctx: InteractionContext, n: int)
    requires
        0 <= n <= list.len(),
    ensures
        visible_items(list, ctx, n) == tlv::concat(
            list.take(n).filter(|e: EntryModel| !ctx.fabric_filtered || ctx.fabric_index == Some(e.fabric)),
            encoding(),
        ),
    decreases n,
{
    let p = |e: EntryModel| !ctx.fabric_filtered || ctx.fabric_index == Some(e.fabric);
    if n > 0 {
        lemma_visible(list, ctx, n - 1);
        let kept = list.take(n - 1).filter(p);
        bounded::lemma_filter_take(list, n - 1, p);
        if p(list[n - 1]) {
            tlv::lemma_concat_push(kept, list[n - 1], encoding());
        } else {
            assert(visible_items(list, ctx, n - 1) + Seq::<u8>::empty() =~= visible_items(list, ctx, n - 1));
        }
    } else {
        assert(list.take(n) =~= Seq::empty());
        bounded::lemma_filter_none(list.take(n), p);
        assert(list.take(n).filter(p) =~= Seq::empty());
    }
}

/// What a read shows: every entry that the reader may see, in order and no other; and how many there may be of what.
pub proof fn law_the_list_is_read_as_it_is<const P: usize, const N: usize, const S: usize, const T: usize>(
    c: AccessControl<P, N, S, T>,
    resolved: Resolved,
    ctx: InteractionContext,
    tag: Tag,
    a: ReadAnswer,
)
    requires
        c.answers(resolved, ctx, tag, a),
    ensures
        resolved.attribute == 0x0000 ==> a == Ok::<Seq<u8>, Status>(
            tlv::array_bytes(
                tag,
                tlv::concat(
                    c.acl@.filter(|e: EntryModel| !ctx.fabric_filtered || ctx.fabric_index == Some(e.fabric)),
                    encoding(),
                ),
            ),
        ),
        resolved.attribute == 0x0002 ==> a is Ok && tlv::shows_number(a->Ok_0, 0, tag, S as u64),
        resolved.attribute == 0x0003 ==> a is Ok && tlv::shows_number(a->Ok_0, 0, tag, T as u64),
        resolved.attribute == 0x0004 ==> a is Ok && tlv::shows_number(a->Ok_0, 0, tag, P as u64),
        forall|e: EntryModel| #[trigger] encoding()(e) == entry_bytes(Tag::Anonymous, e),
{
    assert forall|v: u64| tlv::shows_number(#[trigger] tlv::unsigned_bytes(tag, v), 0, tag, v) by {
        tlv::lemma_shows_number(tag, v);
    }
    lemma_visible(c.acl@, ctx, c.acl@.len() as int);
    assert(c.acl@.take(c.acl@.len() as int) =~= c.acl@);
}

/// Who may do what: the list can be read and written with Administer alone, for the accessing fabric; the limits can be read with
/// View and not be written; and there is no command.
pub proof fn law_the_list_is_for_administrators(d: AttributeDescriptor)
    requires
        description().attributes.contains(d),
    ensures
        d.id == 0x0000 ==> d.access.read == Some(Privilege::Administer) && d.access.write == Some(Privilege::Administer)
            && d.access.qualities.fabric_scoped,
        d.id != 0x0000 ==> d.access.read == Some(Privilege::View) && d.access.write is None && 2 <= d.id <= 4,
        description().accepted_commands.len() == 0,
        description().id == 0x001F,
        description().revision == 3,
{
}

/// A fabric that is removed takes its entries along, all of them and no others, and nothing is recorded.
pub proof fn law_a_removed_fabric_takes_its_entries<const P: usize, const N: usize, const S: usize, const T: usize>(before: AccessControl<P, N, S, T>, after: AccessControl<P, N, S, T>, fabric: FabricIndex, x: EntryModel)
    requires
        AccessControl::outlives(&before, &after, Lifecycle::FabricRemoved(fabric)),
    ensures
        after.acl@.contains(x) == (before.acl@.contains(x) && x.fabric != fabric),
        after.acl@ == before.acl@.filter(|e: EntryModel| e.fabric != fabric),
        after.pending.models() == before.pending.models(),
{
    assert(acl::not_of_fabric(fabric) =~= |e: EntryModel| e.fabric != fabric);
    bounded::lemma_filter(before.acl@, acl::not_of_fabric(fabric));
}

} // verus!
