//! What the interaction model hands to a cluster, and what it takes back.

use vstd::prelude::*;

use crate::dm::Privilege;
use crate::msg::{FabricIndex, GroupId, NodeId};
use crate::platform::Instant;
use crate::tlv::{Tag, TlvWriter};

verus! {

/// An endpoint of the node.
pub type EndpointId = u16;

/// A cluster.
pub type ClusterId = u32;

/// An attribute of a cluster.
pub type AttributeId = u32;

/// A command of a cluster.
pub type CommandId = u32;

/// An event of a cluster.
pub type EventId = u32;

/// How an interaction ended.
#[derive(Debug, Clone, Copy, PartialEq, Eq, Structural)]
pub enum Status {
    /// It was done.
    Success,
    /// It failed, for a reason no other status gives.
    Failure,
    /// The accessing subject may not.
    UnsupportedAccess,
    /// There is no such endpoint.
    UnsupportedEndpoint,
    /// The action is malformed.
    InvalidAction,
    /// There is no such command.
    UnsupportedCommand,
    /// The command is malformed.
    InvalidCommand,
    /// There is no such attribute.
    UnsupportedAttribute,
    /// A value lies outside what it may be.
    ConstraintError,
    /// The attribute cannot be written.
    UnsupportedWrite,
    /// There is no room left.
    ResourceExhausted,
    /// There is no such thing.
    NotFound,
    /// A value is of another type.
    InvalidDataType,
    /// It took too long.
    Timeout,
    /// Something else is going on.
    Busy,
    /// There is no such cluster.
    UnsupportedCluster,
    /// A fail-safe has to be armed first.
    FailsafeRequired,
    /// Not in this state.
    InvalidInState,
    /// There is one already.
    AlreadyExists,
}

/// The number that stands for a status.
pub open spec fn status_value(status: Status) -> u8 {
    match status {
        Status::Success => 0x00,
        Status::Failure => 0x01,
        Status::UnsupportedAccess => 0x7E,
        Status::UnsupportedEndpoint => 0x7F,
        Status::InvalidAction => 0x80,
        Status::UnsupportedCommand => 0x81,
        Status::InvalidCommand => 0x85,
        Status::UnsupportedAttribute => 0x86,
        Status::ConstraintError => 0x87,
        Status::UnsupportedWrite => 0x88,
        Status::ResourceExhausted => 0x89,
        Status::NotFound => 0x8B,
        Status::InvalidDataType => 0x8D,
        Status::Timeout => 0x94,
        Status::Busy => 0x9C,
        Status::UnsupportedCluster => 0xC3,
        Status::FailsafeRequired => 0xCA,
        Status::InvalidInState => 0xCB,
        Status::AlreadyExists => 0xD0,
    }
}

impl Status {
    /// The number that stands for it.
    pub fn value(self) -> (v: u8)
        ensures
            v == status_value(self),
    {
        match self {
            Status::Success => 0x00,
            Status::Failure => 0x01,
            Status::UnsupportedAccess => 0x7E,
            Status::UnsupportedEndpoint => 0x7F,
            Status::InvalidAction => 0x80,
            Status::UnsupportedCommand => 0x81,
            Status::InvalidCommand => 0x85,
            Status::UnsupportedAttribute => 0x86,
            Status::ConstraintError => 0x87,
            Status::UnsupportedWrite => 0x88,
            Status::ResourceExhausted => 0x89,
            Status::NotFound => 0x8B,
            Status::InvalidDataType => 0x8D,
            Status::Timeout => 0x94,
            Status::Busy => 0x9C,
            Status::UnsupportedCluster => 0xC3,
            Status::FailsafeRequired => 0xCA,
            Status::InvalidInState => 0xCB,
            Status::AlreadyExists => 0xD0,
        }
    }
}

/// A status, and the cluster's own code where it gives one.
#[derive(Debug, Clone, Copy, PartialEq, Eq, Structural)]
pub struct StatusIb {
    /// The status.
    pub status: Status,
    /// The cluster's own code.
    pub cluster_status: Option<u8>,
}

/// A status without a code of the cluster's own.
pub open spec fn plain(status: Status) -> StatusIb {
    StatusIb { status, cluster_status: None }
}

/// A failure with the cluster's own code.
pub open spec fn failed(code: u8) -> StatusIb {
    StatusIb { status: Status::Failure, cluster_status: Some(code) }
}

impl StatusIb {
    /// A status without a code of the cluster's own.
    pub fn new(status: Status) -> (s: Self)
        ensures
            s == plain(status),
    {
        StatusIb { status, cluster_status: None }
    }

    /// A failure with the cluster's own code.
    pub fn cluster_failure(code: u8) -> (s: Self)
        ensures
            s == failed(code),
    {
        StatusIb { status: Status::Failure, cluster_status: Some(code) }
    }
}

/// The circumstances of an interaction.
#[derive(Debug, Clone, Copy, PartialEq, Eq, Structural)]
pub struct InteractionContext {
    /// The accessing fabric, where there is one.
    pub fabric_index: Option<FabricIndex>,
    /// The accessing node, where it is known.
    pub peer_node_id: Option<NodeId>,
    /// Whether a read gives only the accessing fabric's entries.
    pub fabric_filtered: bool,
    /// The group that the message was sent to, for a groupcast.
    pub group: Option<GroupId>,
    /// What the accessing subject was granted, where that was worked out.
    pub privilege: Option<Privilege>,
    /// Whether the accessing administrator's vendor was verified.
    pub vendor_id_verified: bool,
    /// When it happens.
    pub now: Instant,
}

impl InteractionContext {
    /// A read or command at `now` on a fabric, or on none.
    pub fn new(fabric_index: Option<FabricIndex>, now: Instant) -> (ctx: Self)
        ensures
            ctx.fabric_index == fabric_index,
            ctx.now == now,
            ctx.peer_node_id is None,
            !ctx.fabric_filtered,
            ctx.group is None,
            ctx.privilege is None,
            !ctx.vendor_id_verified,
    {
        InteractionContext {
            fabric_index,
            peer_node_id: None,
            fabric_filtered: false,
            group: None,
            privilege: None,
            vendor_id_verified: false,
            now,
        }
    }

    /// Whether an entry of a fabric belongs in this read.
    pub open spec fn sees(self, fabric: FabricIndex) -> bool {
        !self.fabric_filtered || self.fabric_index == Some(fabric)
    }

    /// Whether an entry of a fabric belongs in this read.
    pub fn visible(&self, fabric: FabricIndex) -> (r: bool)
        ensures
            r == self.sees(fabric),
    {
        !self.fabric_filtered || match self.fabric_index {
            Some(f) => f.0 == fabric.0,
            None => false,
        }
    }

    /// The accessing fabric, unless it is none or zero.
    pub open spec fn accessing(self) -> Option<FabricIndex> {
        match self.fabric_index {
            Some(f) => if f.0 != 0 { Some(f) } else { None },
            None => None,
        }
    }

    /// The accessing fabric, unless it is none or zero.
    pub fn fabric(&self) -> (f: Option<FabricIndex>)
        ensures
            f == self.accessing(),
    {
        match self.fabric_index {
            Some(f) => if f.0 != 0 { Some(f) } else { None },
            None => None,
        }
    }
}

/// How a write changes a list: all of it, or one more item.
#[derive(Debug, Clone, Copy, PartialEq, Eq, Structural)]
pub enum WriteOp {
    /// The data is the new value.
    Replace,
    /// The data is one more item.
    Append,
}

/// Something that happened to the node as a whole.
#[derive(Debug, Clone, Copy, PartialEq, Eq, Structural)]
pub enum Lifecycle {
    /// A fabric was removed.
    FabricRemoved(FabricIndex),
}

/// Which attribute an access is for.
#[derive(Debug, Clone, Copy, PartialEq, Eq, Structural)]
pub struct Resolved {
    /// The endpoint.
    pub endpoint: EndpointId,
    /// The cluster.
    pub cluster: ClusterId,
    /// The attribute.
    pub attribute: AttributeId,
}

/// Which command an invocation is for.
#[derive(Debug, Clone, Copy, PartialEq, Eq, Structural)]
pub struct ResolvedCommand {
    /// The endpoint.
    pub endpoint: EndpointId,
    /// The cluster.
    pub cluster: ClusterId,
    /// The command.
    pub command: CommandId,
}

/// What a command is answered with: a response command and its fields, or a status alone.
#[derive(Debug)]
pub struct Reply {
    /// The response command, where there is one.
    pub command: Option<CommandId>,
    /// The response, encoded.
    pub body: Vec<u8>,
}

/// What a read may come to: the attribute's encoding, or a status.
pub type ReadAnswer = Result<Seq<u8>, Status>;

/// What a command may come to: a response and its encoding, or a status.
pub type InvokeAnswer = Result<(Option<CommandId>, Seq<u8>), StatusIb>;

/// A read's outcome, as a value.
pub open spec fn read_answer(r: Result<Vec<u8>, Status>) -> ReadAnswer {
    match r {
        Ok(bytes) => Ok(bytes@),
        Err(status) => Err(status),
    }
}

/// A command's outcome, as a value.
pub open spec fn invoke_answer(r: Result<Reply, StatusIb>) -> InvokeAnswer {
    match r {
        Ok(reply) => Ok((reply.command, reply.body@)),
        Err(status) => Err(status),
    }
}

/// A command that is answered with success and nothing else.
pub open spec fn done() -> InvokeAnswer {
    Ok((None, Seq::<u8>::empty()))
}

/// A command that is answered with a status alone.
pub open spec fn refused(status: Status) -> InvokeAnswer {
    Err(plain(status))
}

/// A command that is answered with success and nothing else.
pub fn no_response() -> (r: Result<Reply, StatusIb>)
    ensures
        invoke_answer(r) == done(),
{
    Ok(Reply { command: None, body: Vec::new() })
}

/// A command that is answered with a status alone.
pub fn refuse(status: Status) -> (r: Result<Reply, StatusIb>)
    ensures
        invoke_answer(r) == refused(status),
{
    Err(StatusIb::new(status))
}

/// A command that is answered with a response.
pub fn respond(command: CommandId, body: Vec<u8>) -> (r: Result<Reply, StatusIb>)
    ensures
        invoke_answer(r) == Ok::<(Option<CommandId>, Seq<u8>), StatusIb>((Some(command), body@)),
{
    Ok(Reply { command: Some(command), body })
}

/// How an answer to a read reaches the writer: whole, or not at all.
pub open spec fn read_into(before: TlvWriter, after: TlvWriter, r: Result<(), Status>, a: ReadAnswer) -> bool {
    match a {
        Ok(bytes) => if bytes.len() <= before.room() {
            r == Ok::<(), Status>(()) && after.has_written(before, bytes)
        } else {
            r == Err::<(), Status>(Status::ResourceExhausted) && after.has_written(before, Seq::empty())
        },
        Err(status) => r == Err::<(), Status>(status) && after.has_written(before, Seq::empty()),
    }
}

/// How an answer to a command reaches the writer: whole, or not at all, which is answered with
/// `full`.
pub open spec fn invoke_into(
    before: TlvWriter,
    after: TlvWriter,
    r: Result<Option<CommandId>, StatusIb>,
    a: InvokeAnswer,
    full: Status,
) -> bool {
    match a {
        Ok((None, _)) => r == Ok::<Option<CommandId>, StatusIb>(None) && after.has_written(before, Seq::empty()),
        Ok((Some(id), bytes)) => if bytes.len() <= before.room() {
            r == Ok::<Option<CommandId>, StatusIb>(Some(id)) && after.has_written(before, bytes)
        } else {
            r == Err::<Option<CommandId>, StatusIb>(plain(full)) && after.has_written(before, Seq::empty())
        },
        Err(status) => r == Err::<Option<CommandId>, StatusIb>(status) && after.has_written(before, Seq::empty()),
    }
}

/// A cluster's server side.
///
/// Each cluster says with three relations what it may answer to a read, and how a write, a command
/// and an event of the node move it on; the methods are held to these.
pub trait ClusterHandler: Sized {
    /// What a read of an attribute may be answered with.
    spec fn answers(&self, resolved: Resolved, ctx: InteractionContext, tag: Tag, a: ReadAnswer) -> bool;

    /// How a write may leave the cluster, and what it is answered with.
    spec fn writes(
        before: &Self,
        after: &Self,
        resolved: Resolved,
        data: Seq<u8>,
        op: WriteOp,
        ctx: InteractionContext,
        r: Result<(), Status>,
    ) -> bool;

    /// How a command may leave the cluster, and what it is answered with.
    spec fn invokes(
        before: &Self,
        after: &Self,
        resolved: ResolvedCommand,
        fields: Option<Seq<u8>>,
        ctx: InteractionContext,
        tag: Tag,
        a: InvokeAnswer,
    ) -> bool;

    /// How an event of the node leaves the cluster.
    spec fn outlives(before: &Self, after: &Self, event: Lifecycle) -> bool;

    /// What a command is answered with whose response does not fit.
    spec fn unfit(&self, resolved: ResolvedCommand) -> Status;

    /// Answers a read.
    fn answer(&self, resolved: &Resolved, ctx: &InteractionContext, tag: Tag) -> (a: Result<Vec<u8>, Status>)
        ensures
            self.answers(*resolved, *ctx, tag, read_answer(a)),
    ;

    /// Writes an attribute.
    fn write(&mut self, resolved: &Resolved, data: &[u8], op: WriteOp, ctx: &InteractionContext) -> (r: Result<(), Status>)
        ensures
            Self::writes(old(self), final(self), *resolved, data@, op, *ctx, r),
    ;

    /// Carries out a command.
    fn perform(
        &mut self,
        resolved: &ResolvedCommand,
        fields: Option<&[u8]>,
        ctx: &InteractionContext,
        tag: Tag,
    ) -> (a: Result<Reply, StatusIb>)
        ensures
            Self::invokes(old(self), final(self), *resolved, octets(fields), *ctx, tag, invoke_answer(a)),
    ;

    /// Hears of an event of the node.
    fn on_lifecycle(&mut self, event: Lifecycle)
        ensures
            Self::outlives(old(self), final(self), event),
    ;

    /// What a command is answered with whose response does not fit.
    fn unfit_status(&self, resolved: &ResolvedCommand) -> (s: Status)
        ensures
            s == self.unfit(*resolved),
    ;

    /// The version of the cluster's data, where the cluster keeps one of its own.
    fn data_version(&self, resolved: &Resolved) -> (v: Option<u32>)
        default_ensures
            v is None,
    {
        None
    }

    /// Answers a read into a writer.
    fn read(&self, resolved: &Resolved, ctx: &InteractionContext, w: &mut TlvWriter, tag: Tag) -> (r: Result<(), Status>)
        ensures
            exists|a: ReadAnswer| #[trigger]
                self.answers(*resolved, *ctx, tag, a) && read_into(*old(w), *final(w), r, a),
    {
        let a: Result<Vec<u8>, Status> = self.answer(resolved, ctx, tag);
        let ghost seen = read_answer(a);
        match a {
            Ok(bytes) => if w.append(bytes.as_slice()) {
                proof {
                    assert(read_into(*old(w), *w, Ok::<(), Status>(()), seen));
                }
                Ok(())
            } else {
                proof {
                    assert(read_into(*old(w), *w, Err::<(), Status>(Status::ResourceExhausted), seen));
                }
                Err(Status::ResourceExhausted)
            },
            Err(status) => {
                proof {
                    assert(read_into(*old(w), *w, Err::<(), Status>(status), seen));
                }
                Err(status)
            },
        }
    }

    /// Carries out a command and writes its response.
    fn invoke(
        &mut self,
        resolved: &ResolvedCommand,
        fields: Option<&[u8]>,
        ctx: &InteractionContext,
        w: &mut TlvWriter,
        tag: Tag,
    ) -> (r: Result<Option<CommandId>, StatusIb>)
        ensures
            exists|a: InvokeAnswer| #[trigger]
                Self::invokes(old(self), final(self), *resolved, octets(fields), *ctx, tag, a) && invoke_into(
                    *old(w),
                    *final(w),
                    r,
                    a,
                    old(self).unfit(*resolved),
                ),
    {
        let full: Status = self.unfit_status(resolved);
        let a: Result<Reply, StatusIb> = self.perform(resolved, fields, ctx, tag);
        let ghost seen = invoke_answer(a);
        let r: Result<Option<CommandId>, StatusIb> = deliver(a, w, full);
        proof {
            assert(invoke_into(*old(w), *w, r, seen, full));
        }
        r
    }
}

/// Writes a command's response; one that does not fit is answered with `full`.
pub fn deliver(a: Result<Reply, StatusIb>, w: &mut TlvWriter, full: Status) -> (r: Result<Option<CommandId>, StatusIb>)
    ensures
        invoke_into(*old(w), *final(w), r, invoke_answer(a), full),
{
    match a {
        Ok(reply) => match reply.command {
            None => Ok(None),
            Some(id) => if w.append(reply.body.as_slice()) {
                Ok(Some(id))
            } else {
                Err(StatusIb::new(full))
            },
        },
        Err(status) => Err(status),
    }
}

/// The octets of a command's fields, where it has any.
pub open spec fn octets(fields: Option<&[u8]>) -> Option<Seq<u8>> {
    match fields {
        Some(f) => Some(f@),
        None => None,
    }
}

/// No two statuses have the same number; success is zero, and every other status but the plain failure has a number above the
/// first half of the octet's range or just below it.
pub proof fn law_statuses_are_told_apart(a: Status, b: Status)
    ensures
        status_value(a) == status_value(b) ==> a == b,
        (status_value(a) == 0) == a is Success,
        (status_value(a) == 1) == a is Failure,
        !(a is Success || a is Failure) ==> status_value(a) >= 0x7E,
        (status_value(a) == 0x7E) == a is UnsupportedAccess,
        (status_value(a) == 0x7F) == a is UnsupportedEndpoint,
        (status_value(a) == 0x80) == a is InvalidAction,
        (status_value(a) == 0x81) == a is UnsupportedCommand,
        (status_value(a) == 0x85) == a is InvalidCommand,
        (status_value(a) == 0x86) == a is UnsupportedAttribute,
        (status_value(a) == 0x87) == a is ConstraintError,
        (status_value(a) == 0x88) == a is UnsupportedWrite,
        (status_value(a) == 0x89) == a is ResourceExhausted,
        (status_value(a) == 0x8B) == a is NotFound,
        (status_value(a) == 0x8D) == a is InvalidDataType,
        (status_value(a) == 0x94) == a is Timeout,
        (status_value(a) == 0x9C) == a is Busy,
        (status_value(a) == 0xC3) == a is UnsupportedCluster,
        (status_value(a) == 0xCA) == a is FailsafeRequired,
        (status_value(a) == 0xCB) == a is InvalidInState,
        (status_value(a) == 0xD0) == a is AlreadyExists,
{
}

} // verus!
