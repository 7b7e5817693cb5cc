//! Commissioner Control, cluster `0x0751`: asking a node to commission another device.
//!
//! It takes two steps: a client asks, the node decides in its own time, and only then does the
//! same client, on the same fabric, have the device commissioned.

use vstd::prelude::*;

use crate::bounded;
use crate::bounded::List;
use crate::clusters::dispatch::Cluster;
use crate::conformance;
use crate::conformance::{Conformance, Conforming, Definition, DefinitionModel, Optional};
use crate::dm::{EventPriority, Privilege};
use crate::error::ErrorCode;
use crate::fields;
use crate::fields::{Field, Fields, Kind, Need};
use crate::im;
use crate::im::{
    AttributeId, ClusterHandler, ClusterId, CommandId, EventId, InteractionContext, InvokeAnswer, Lifecycle, ReadAnswer, Reply,
    Resolved, ResolvedCommand, Status, StatusIb, WriteOp,
};
use crate::msg::{FabricIndex, NodeId, VendorId};
use crate::tlv;
use crate::tlv::Tag;

verus! {

/// The cluster.
pub const ID: ClusterId = 0x0751;

/// Its revision.
pub const REVISION: u16 = 1;

/// `SupportedDeviceCategories`.
pub const SUPPORTED_DEVICE_CATEGORIES: AttributeId = 0x0000;

/// `RequestCommissioningApproval`.
pub const REQUEST_COMMISSIONING_APPROVAL: CommandId = 0x00;

/// `CommissionNode`.
pub const COMMISSION_NODE: CommandId = 0x01;

/// `ReverseOpenCommissioningWindow`.
pub const REVERSE_OPEN_COMMISSIONING_WINDOW: CommandId = 0x02;

/// `CommissioningRequestResult`.
pub const COMMISSIONING_REQUEST_RESULT: EventId = 0x00;

/// The most octets that a label may have.
pub const LABEL_MAX: usize = 64;

/// How many octets a passcode's verifier has.
pub const VERIFIER_LEN: usize = 97;

/// The categories of devices that a node can commission.
#[derive(Debug, Clone, Copy, PartialEq, Eq, Structural)]
pub struct SupportedDeviceCategoryBitmap(pub u32);

impl SupportedDeviceCategoryBitmap {
    /// Aggregators that share their fabric.
    pub fn fabric_synchronization() -> (c: Self)
        ensures
            c.0 == 1,
    {
        SupportedDeviceCategoryBitmap(1)
    }

    /// The bits.
    pub fn bits(self) -> (b: u32)
        ensures
            b == self.0,
    {
        self.0
    }
}

/// One request that was not withdrawn.
#[derive(Debug, Clone, Copy, PartialEq, Eq, Structural)]
pub struct Request {
    /// The client's number for it.
    pub request_id: u64,
    /// Who asked.
    pub client_node_id: NodeId,
    /// On which fabric.
    pub fabric: FabricIndex,
    /// The vendor of the device.
    pub vendor_id: VendorId,
    /// Its product.
    pub product_id: u16,
    /// What was decided, once it was.
    pub approved: Option<bool>,
}

/// What was decided about a request.
#[derive(Debug, Clone, Copy, PartialEq, Eq, Structural)]
pub enum Decision {
    /// The node is ready.
    Approved,
    /// Nobody answered in time.
    TimedOut,
    /// Anything else.
    Refused,
}

/// The status that tells of a decision.
pub open spec fn decision_status(d: Decision) -> Status {
    match d {
        Decision::Approved => Status::Success,
        Decision::TimedOut => Status::Timeout,
        Decision::Refused => Status::Failure,
    }
}

impl Decision {
    /// The status that tells of it.
    pub fn status(self) -> (s: Status)
        ensures
            s == decision_status(self),
    {
        match self {
            Decision::Approved => Status::Success,
            Decision::TimedOut => Status::Timeout,
            Decision::Refused => Status::Failure,
        }
    }
}

/// What a client is told once its request was decided.
#[derive(Debug, Clone, Copy, PartialEq, Eq, Structural)]
pub struct CommissioningRequestResult {
    /// The client's number for it.
    pub request_id: u64,
    /// Who asked.
    pub client_node_id: NodeId,
    /// What was decided.
    pub decision: Decision,
}

/// The window that the client is asked to open.
#[derive(Debug, Clone, Copy)]
pub struct Window<'a> {
    /// For how long, in seconds.
    pub commissioning_timeout: u16,
    /// The passcode's verifier.
    pub pake_passcode_verifier: &'a [u8],
    /// The discriminator.
    pub discriminator: u16,
    /// How many times the passcode is hashed.
    pub iterations: u32,
    /// The salt.
    pub salt: &'a [u8],
}

impl<'a> Window<'a> {
    /// Whether it is one that can be opened: a verifier, a discriminator, iterations and a salt
    /// of the sizes they have.
    pub open spec fn valid(&self) -> bool {
        &&& self.pake_passcode_verifier@.len() == VERIFIER_LEN
        &&& self.discriminator <= 0x0FFF
        &&& 1_000 <= self.iterations <= 100_000
        &&& 16 <= self.salt@.len() <= 32
    }

    fn is_valid(&self) -> (r: bool)
        ensures
            r == self.valid(),
    {
        self.pake_passcode_verifier.len() == VERIFIER_LEN && self.discriminator <= 0x0FFF && self.iterations >= 1_000
            && self.iterations <= 100_000 && self.salt.len() >= 16 && self.salt.len() <= 32
    }
}

/// What a product decides about requests.
pub trait CommissionerControlHooks {
    /// The requests that it was told of, in order; a product that is itself verified says what this
    /// is.
    closed spec fn told(&self) -> Seq<Request> {
        arbitrary()
    }

    /// A client would like a device commissioned.
    fn requested(&mut self, request: &Request)
        requires
            request.approved is None,
        ensures
            final(self).told() == old(self).told().push(*request),
    ;

    /// The client of an approved request is ready: the window that it is to open, or `None` to refuse.
    fn window(&self, request: &Request) -> (w: Option<Window<'_>>)
        requires
            request.approved == Some(true),
    ;
}

/// The requests that a product was told of, once one that is new was added.
pub open spec fn told_of(told: Seq<Request>, before: Seq<Request>, after: Seq<Request>) -> Seq<Request> {
    if after == before {
        told
    } else {
        told.push(after.last())
    }
}

/// The requests and what is to be told of them.
pub struct State {
    /// The requests.
    pub pending: Seq<Request>,
    /// The decisions, the oldest first.
    pub events: Seq<CommissioningRequestResult>,
    /// Whether a window is to be asked for.
    pub reverse: bool,
}

/// A client's request.
pub open spec fn request_is(request_id: u64, client: NodeId) -> spec_fn(Request) -> bool {
    |r: Request| r.request_id == request_id && r.client_node_id == client
}

/// Any other request.
pub open spec fn request_is_not(request_id: u64, client: NodeId) -> spec_fn(Request) -> bool {
    |r: Request| !(r.request_id == request_id && r.client_node_id == client)
}

/// A client's request on a fabric.
pub open spec fn request_is_on(request_id: u64, client: NodeId, fabric: FabricIndex) -> spec_fn(Request) -> bool {
    |r: Request| r.request_id == request_id && r.client_node_id == client && r.fabric == fabric
}

/// The fields of `RequestCommissioningApproval`.
pub open spec fn approval_schema() -> Seq<Field> {
    seq![
        Field(0, Kind::U64, Need::Required),
        Field(1, Kind::U16, Need::Required),
        Field(2, Kind::U16, Need::Required),
        Field(3, Kind::Text, Need::Optional),
    ]
}

/// The fields of `CommissionNode`.
pub open spec fn commission_schema() -> Seq<Field> {
    seq![Field(0, Kind::U64, Need::Required), Field(1, Kind::U16, Need::Required)]
}

/// The command that asks for a window.
pub open spec fn window_bytes(w: Window, tag: Tag) -> Seq<u8> {
    tlv::structure_bytes(
        tag,
        tlv::unsigned_bytes(Tag::Context(0), w.commissioning_timeout as u64) + tlv::octets_bytes(
            Tag::Context(1),
            w.pake_passcode_verifier@,
        ) + tlv::unsigned_bytes(Tag::Context(2), w.discriminator as u64) + tlv::unsigned_bytes(
            Tag::Context(3),
            w.iterations as u64,
        ) + tlv::octets_bytes(Tag::Context(4), w.salt@),
    )
}

/// What asking for approval comes to: a request that waits for a decision, unless the client
/// already has one of that number or there is no room.
pub open spec fn approval(st: State, data: Option<Seq<u8>>, fabric: FabricIndex, client: NodeId, cap: nat) -> (
    State,
    InvokeAnswer,
) {
    match fields::decode_some(data, approval_schema()) {
        Err(status) => (st, im::refused(status)),
        Ok(items) => match (fields::num(items, 0), fields::num16(items, 1), fields::num16(items, 2)) {
            (Some(request_id), Some(vendor), Some(product_id)) => if fields::text_length(items, 3) matches Some(n) && n
                > LABEL_MAX {
                (st, im::refused(Status::ConstraintError))
            } else if bounded::first(st.pending, request_is(request_id, client)) is Some {
                (st, im::refused(Status::Failure))
            } else if st.pending.len() >= cap {
                (st, im::refused(Status::ResourceExhausted))
            } else {
                (
                    State {
                        pending: st.pending.push(
                            Request {
                                request_id,
                                client_node_id: client,
                                fabric,
                                vendor_id: VendorId(vendor),
                                product_id,
                                approved: None,
                            },
                        ),
                        ..st
                    },
                    im::done(),
                )
            },
            _ => (st, im::refused(Status::InvalidCommand)),
        },
    }
}

/// The approved request that `CommissionNode` is for, or why it is refused before a window is
/// asked for.
pub open spec fn granted(st: State, data: Option<Seq<u8>>, fabric: FabricIndex, client: NodeId) -> Result<Request, Status> {
    match fields::decode_some(data, commission_schema()) {
        Err(status) => Err(status),
        Ok(items) => match fields::num(items, 0) {
            None => Err(Status::InvalidCommand),
            Some(request_id) => match bounded::first(st.pending, request_is_on(request_id, client, fabric)) {
                None => Err(Status::Failure),
                Some(i) => if st.pending[i].approved == Some(true) {
                    Ok(st.pending[i])
                } else {
                    Err(Status::Failure)
                },
            },
        },
    }
}

/// What `CommissionNode` comes to once its request was granted and a window was given or refused.
pub open spec fn commissioned(st: State, window: Option<Window>, tag: Tag) -> (State, InvokeAnswer) {
    match window {
        Some(w) => if w.valid() {
            (
                State { reverse: true, ..st },
                Ok((Some(REVERSE_OPEN_COMMISSIONING_WINDOW), window_bytes(w, tag))),
            )
        } else {
            (st, im::refused(Status::Failure))
        },
        None => (st, im::refused(Status::Failure)),
    }
}

/// What a command comes to, given the window that the product chose.
pub open spec fn commanded(
    st: State,
    command: CommandId,
    data: Option<Seq<u8>>,
    ctx: InteractionContext,
    window: Option<Window>,
    tag: Tag,
    cap: nat,
) -> (State, InvokeAnswer) {
    match (ctx.fabric_index, ctx.peer_node_id) {
        (Some(fabric), Some(client)) => if command == REQUEST_COMMISSIONING_APPROVAL {
            approval(st, data, fabric, client, cap)
        } else if command == COMMISSION_NODE {
            match granted(st, data, fabric, client) {
                Err(status) => (st, im::refused(status)),
                Ok(_) => commissioned(st, window, tag),
            }
        } else {
            (st, im::refused(Status::UnsupportedCommand))
        },
        _ => (st, im::refused(Status::UnsupportedAccess)),
    }
}

/// What a decision comes to: the request knows of it, and it is told; nothing where there is no
/// such request.
pub open spec fn decided(st: State, request_id: u64, client: NodeId, decision: Decision, cap: nat) -> (State, bool) {
    match bounded::first(st.pending, request_is(request_id, client)) {
        None => (st, false),
        Some(i) => (
            State {
                pending: st.pending.update(i, Request { approved: Some(decision is Approved), ..st.pending[i] }),
                events: bounded::newest(
                    st.events,
                    CommissioningRequestResult { request_id, client_node_id: client, decision },
                    cap,
                ),
                ..st
            },
            true,
        ),
    }
}

/// Commissioner Control with at most `N` requests.
pub struct CommissionerControl<H: CommissionerControlHooks, const N: usize> {
    /// The product.
    pub hooks: H,
    /// `SupportedDeviceCategories`.
    pub categories: SupportedDeviceCategoryBitmap,
    /// The requests.
    pub pending: List<Request, N>,
    /// The decisions that were not told yet.
    pub events: List<CommissioningRequestResult, N>,
    /// Whether a window is to be asked for.
    pub reverse: bool,
}

impl<H: CommissionerControlHooks, const N: usize> CommissionerControl<H, N> {
    /// The description for features and for what the product chooses.
    pub fn conforming(features: u32, optional: &Optional) -> (r: Result<Conforming, ErrorCode>)
        ensures
            conformance::outcome(r) == conformance::conform(defined(), features, optional@),
    {
        Conforming::new(&definition(), features, optional)
    }

    /// The requests and what is to be told of them.
    pub open spec fn state(&self) -> State {
        State { pending: self.pending@, events: self.events@, reverse: self.reverse }
    }

    /// A cluster without requests.
    pub fn new(hooks: H, categories: SupportedDeviceCategoryBitmap) -> (c: Self)
        ensures
            c.state() == (State { pending: Seq::empty(), events: Seq::empty(), reverse: false }),
            c.categories == categories,
            c.hooks == hooks,
    {
        CommissionerControl { hooks, categories, pending: List::new(), events: List::new(), reverse: false }
    }

    /// `SupportedDeviceCategories`.
    pub fn categories(&self) -> (c: SupportedDeviceCategoryBitmap)
        ensures
            c == self.categories,
    {
        self.categories
    }

    /// The requests.
    pub fn pending(&self) -> (requests: &[Request])
        ensures
            requests@ == self.pending@,
    {
        self.pending.as_slice()
    }

    fn position(&self, request_id: u64, client: NodeId) -> (at: Option<usize>)
        ensures
            match at {
                Some(i) => bounded::first(self.pending@, request_is(request_id, client)) == Some(i as int) && i
                    < self.pending@.len(),
                None => bounded::first(self.pending@, request_is(request_id, client)) is None,
            },
    {
        self.pending.position(
            |r: &Request| -> (b: bool)
                ensures
                    b == (r.request_id == request_id && r.client_node_id == client)
                { r.request_id == request_id && r.client_node_id.0 == client.0 },
            Ghost(request_is(request_id, client)),
        )
    }

    /// Decides a request; `false` where there is none.
    pub fn decide(&mut self, request_id: u64, client: NodeId, decision: Decision) -> (found: bool)
        ensures
            (final(self).state(), found) == decided(old(self).state(), request_id, client, decision, N as nat),
            final(self).categories == old(self).categories,
            final(self).hooks == old(self).hooks,
    {
        match self.position(request_id, client) {
            None => false,
            Some(i) => {
                let request: Request = *self.pending.get(i);
                self.pending.set(i, Request { approved: Some(decision == Decision::Approved), ..request });
                self.events.push_newest(CommissioningRequestResult { request_id, client_node_id: client, decision });
                true
            },
        }
    }

    /// Takes the decisions that were not told yet.
    pub fn take_events(&mut self) -> (events: Vec<CommissioningRequestResult>)
        ensures
            events@ == old(self).events@,
            final(self).state() == (State { events: Seq::empty(), ..old(self).state() }),
            final(self).categories == old(self).categories,
            final(self).hooks == old(self).hooks,
    {
        self.events.take()
    }

    /// Whether a window is to be asked for; it is said once.
    pub fn reverse_pending(&mut self) -> (r: bool)
        ensures
            r == old(self).reverse,
            final(self).state() == (State { reverse: false, ..old(self).state() }),
            final(self).categories == old(self).categories,
            final(self).hooks == old(self).hooks,
    {
        let pending: bool = self.reverse;
        self.reverse = false;
        pending
    }

    /// Forgets a request.
    pub fn forget(&mut self, request_id: u64, client: NodeId)
        ensures
            final(self).state() == (State {
                pending: old(self).pending@.filter(request_is_not(request_id, client)),
                ..old(self).state()
            }),
            final(self).categories == old(self).categories,
            final(self).hooks == old(self).hooks,
    {
        self.pending.retain(
            |r: &Request| -> (b: bool)
                ensures
                    b == (!(r.request_id == request_id && r.client_node_id == client))
                { !(r.request_id == request_id && r.client_node_id.0 == client.0) },
            Ghost(request_is_not(request_id, client)),
        );
    }

    fn request(&mut self, data: Option<&[u8]>, fabric: FabricIndex, client: NodeId) -> (a: Result<Reply, StatusIb>)
        ensures
            (final(self).state(), im::invoke_answer(a)) == approval(
                old(self).state(),
                im::octets(data),
                fabric,
                client,
                N as nat,
            ),
            final(self).categories == old(self).categories,
            final(self).hooks.told() == told_of(old(self).hooks.told(), old(self).pending@, final(self).pending@),
            final(self).pending@ == old(self).pending@ ==> final(self).hooks == old(self).hooks,
    {
        let schema: Vec<Field> = vec![
            Field(0, Kind::U64, Need::Required),
            Field(1, Kind::U16, Need::Required),
            Field(2, Kind::U16, Need::Required),
            Field(3, Kind::Text, Need::Optional),
        ];
        proof {
            assert(schema@ =~= approval_schema());
        }
        let f: Fields = match fields::read_some(data, &schema) {
            Err(status) => return im::refuse(status),
            Ok(f) => f,
        };
        match (f.num(0), f.num16(1), f.num16(2)) {
            (Some(request_id), Some(vendor), Some(product_id)) => {
                if let Some(n) = f.text_length(3) {
                    if n > LABEL_MAX {
                        return im::refuse(Status::ConstraintError);
                    }
                }
                if self.position(request_id, client).is_some() {
                    return im::refuse(Status::Failure);
                }
                let request: Request = Request {
                    request_id,
                    client_node_id: client,
                    fabric,
                    vendor_id: VendorId(vendor),
                    product_id,
                    approved: None,
                };
                if !self.pending.push(request) {
                    return im::refuse(Status::ResourceExhausted);
                }
                self.hooks.requested(&request);
                im::no_response()
            },
            _ => im::refuse(Status::InvalidCommand),
        }
    }

    fn grant(&self, data: Option<&[u8]>, fabric: FabricIndex, client: NodeId) -> (r: Result<Request, Status>)
        ensures
            r == granted(self.state(), im::octets(data), fabric, client),
    {
        let schema: Vec<Field> = vec![Field(0, Kind::U64, Need::Required), Field(1, Kind::U16, Need::Required)];
        proof {
            assert(schema@ =~= commission_schema());
        }
        let f: Fields = match fields::read_some(data, &schema) {
            Err(status) => return Err(status),
            Ok(f) => f,
        };
        let request_id: u64 = match f.num(0) {
            None => return Err(Status::InvalidCommand),
            Some(id) => id,
        };
        let at: Option<usize> = self.pending.position(
            |r: &Request| -> (b: bool)
                ensures
                    b == (r.request_id == request_id && r.client_node_id == client && r.fabric == fabric)
                { r.request_id == request_id && r.client_node_id.0 == client.0 && r.fabric.0 == fabric.0 },
            Ghost(request_is_on(request_id, client, fabric)),
        );
        match at {
            None => Err(Status::Failure),
            Some(i) => {
                let request: Request = *self.pending.get(i);
                match request.approved {
                    Some(true) => Ok(request),
                    _ => Err(Status::Failure),
                }
            },
        }
    }

    /// Asks the client for a window, once a product gave one or refused.
    pub fn commission(&mut self, window: Option<Window>, tag: Tag) -> (a: Result<Reply, StatusIb>)
        ensures
            (final(self).state(), im::invoke_answer(a)) == commissioned(old(self).state(), window, tag),
            final(self).categories == old(self).categories,
            final(self).hooks == old(self).hooks,
    {
        open_reverse(&mut self.reverse, window, tag)
    }
}

fn open_reverse(reverse: &mut bool, window: Option<Window>, tag: Tag) -> (a: Result<Reply, StatusIb>)
    ensures
        forall|st: State|
            st.reverse == *old(reverse) ==> #[trigger] commissioned(st, window, tag) == (
                State { reverse: *final(reverse), ..st },
                im::invoke_answer(a),
            ),
{
    let w: Window = match window {
        None => return im::refuse(Status::Failure),
        Some(w) => w,
    };
    if !w.is_valid() {
        return im::refuse(Status::Failure);
    }
    *reverse = true;
    im::respond(REVERSE_OPEN_COMMISSIONING_WINDOW, encode_window(&w, tag))
}

fn encode_window(w: &Window, tag: Tag) -> (out: Vec<u8>)
    ensures
        out@ == window_bytes(*w, tag),
{
    let mut body: Vec<u8> = Vec::new();
    tlv::put_unsigned(&mut body, Tag::Context(0), w.commissioning_timeout as u64);
    tlv::put_octets(&mut body, Tag::Context(1), w.pake_passcode_verifier);
    tlv::put_unsigned(&mut body, Tag::Context(2), w.discriminator as u64);
    tlv::put_unsigned(&mut body, Tag::Context(3), w.iterations as u64);
    tlv::put_octets(&mut body, Tag::Context(4), w.salt);
    let mut out: Vec<u8> = Vec::new();
    tlv::put_structure(&mut out, tag, &body);
    proof {
        assert(body@ =~= tlv::unsigned_bytes(Tag::Context(0), w.commissioning_timeout as u64) + tlv::octets_bytes(
            Tag::Context(1),
            w.pake_passcode_verifier@,
        ) + tlv::unsigned_bytes(Tag::Context(2), w.discriminator as u64) + tlv::unsigned_bytes(
            Tag::Context(3),
            w.iterations as u64,
        ) + tlv::octets_bytes(Tag::Context(4), w.salt@));
        assert(out@ =~= window_bytes(*w, tag));
    }
    out
}

/// The cluster's definition.
pub open spec fn defined() -> DefinitionModel {
    DefinitionModel {
        id: ID,
        revision: REVISION,
        features: 0,
        attributes: seq![
            conformance::reads(SUPPORTED_DEVICE_CATEGORIES, Conformance::Mandatory),
        ],
        commands: seq![
            conformance::invokes(REQUEST_COMMISSIONING_APPROVAL, Privilege::Manage, None, Conformance::Mandatory),
            conformance::invokes(
                COMMISSION_NODE,
                Privilege::Manage,
                Some(REVERSE_OPEN_COMMISSIONING_WINDOW),
                Conformance::Mandatory,
            ),
        ],
        generated: seq![
            (REVERSE_OPEN_COMMISSIONING_WINDOW, Conformance::Mandatory),
        ],
        events: seq![
            conformance::tells(COMMISSIONING_REQUEST_RESULT, EventPriority::Info, Conformance::Mandatory),
        ],
    }
}

/// The cluster's definition.
pub fn definition() -> (d: Definition)
    ensures
        d@ == defined(),
{
    let d: Definition = Definition {
        id: ID,
        revision: REVISION,
        features: 0,
        attributes: vec![
            conformance::readable(SUPPORTED_DEVICE_CATEGORIES, Conformance::Mandatory),
        ],
        commands: vec![
            conformance::invocable(REQUEST_COMMISSIONING_APPROVAL, Privilege::Manage, None, Conformance::Mandatory),
            conformance::invocable(
                COMMISSION_NODE,
                Privilege::Manage,
                Some(REVERSE_OPEN_COMMISSIONING_WINDOW),
                Conformance::Mandatory,
            ),
        ],
        generated: vec![
            (REVERSE_OPEN_COMMISSIONING_WINDOW, Conformance::Mandatory),
        ],
        events: vec![
            conformance::event(COMMISSIONING_REQUEST_RESULT, EventPriority::Info, Conformance::Mandatory),
        ],
    };
    proof {
        assert(d@.attributes =~= defined().attributes);
        assert(d@.commands =~= defined().commands);
        assert(d@.generated =~= defined().generated);
        assert(d@.events =~= defined().events);
    }
    d
}

impl<H: CommissionerControlHooks, const N: usize> CommissionerControl<H, N> {
    /// Whether the product, asked for a window for a request that was granted, may give this one.
    pub open spec fn gives(&self, command: CommandId, data: Option<Seq<u8>>, ctx: InteractionContext, window: Option<Window>) -> bool {
        match (ctx.fabric_index, ctx.peer_node_id) {
            (Some(fabric), Some(client)) => command == COMMISSION_NODE ==> match granted(self.state(), data, fabric, client) {
                Err(_) => true,
                Ok(request) => call_ensures(H::window, (&self.hooks, &request), window),
            },
            _ => true,
        }
    }
}

impl<H: CommissionerControlHooks, const N: usize> Cluster for CommissionerControl<H, N> {
    const ID: ClusterId = ID;
}

impl<H: CommissionerControlHooks, const N: usize> ClusterHandler for CommissionerControl<H, N> {
    open spec fn answers(&self, resolved: Resolved, ctx: InteractionContext, tag: Tag, a: ReadAnswer) -> bool {
        a == if resolved.attribute == SUPPORTED_DEVICE_CATEGORIES {
            Ok(tlv::unsigned_bytes(tag, self.categories.0 as u64))
        } else {
            Err::<Seq<u8>, Status>(Status::UnsupportedAttribute)
        }
    }

    open spec fn writes(
        before: &Self,
        after: &Self,
        resolved: Resolved,
        data: Seq<u8>,
        op: WriteOp,
        ctx: InteractionContext,
        r: Result<(), Status>,
    ) -> bool {
        *after == *before && r == Err::<(), Status>(Status::UnsupportedWrite)
    }

    open spec fn invokes(
        before: &Self,
        after: &Self,
        resolved: ResolvedCommand,
        fields: Option<Seq<u8>>,
        ctx: InteractionContext,
        tag: Tag,
        a: InvokeAnswer,
    ) -> bool {
        &&& after.categories == before.categories
        &&& after.hooks.told() == told_of(before.hooks.told(), before.pending@, after.pending@)
        &&& after.pending@ == before.pending@ ==> after.hooks == before.hooks
        &&& exists|window: Option<Window<'_>>|
            before.gives(resolved.command, fields, ctx, window) && (after.state(), a) == #[trigger] commanded(
                before.state(),
                resolved.command,
                fields,
                ctx,
                window,
                tag,
                N as nat,
            )
    }

    open spec fn outlives(before: &Self, after: &Self, event: Lifecycle) -> bool {
        *after == *before
    }

    open spec fn unfit(&self, resolved: ResolvedCommand) -> Status {
        Status::Failure
    }

    fn answer(&self, resolved: &Resolved, ctx: &InteractionContext, tag: Tag) -> (a: Result<Vec<u8>, Status>) {
        if resolved.attribute != SUPPORTED_DEVICE_CATEGORIES {
            return Err(Status::UnsupportedAttribute);
        }
        let mut out: Vec<u8> = Vec::new();
        tlv::put_unsigned(&mut out, tag, self.categories.bits() as u64);
        proof {
            assert(out@ =~= tlv::unsigned_bytes(tag, self.categories.0 as u64));
        }
        Ok(out)
    }

    fn write(&mut self, resolved: &Resolved, data: &[u8], op: WriteOp, ctx: &InteractionContext) -> (r: Result<(), Status>) {
        Err(Status::UnsupportedWrite)
    }

    fn perform(
        &mut self,
        resolved: &ResolvedCommand,
        fields: Option<&[u8]>,
        ctx: &InteractionContext,
        tag: Tag,
    ) -> (a: Result<Reply, StatusIb>) {
        let ghost start = self.state();
        let ghost data = im::octets(fields);
        let (fabric, client) = match (ctx.fabric_index, ctx.peer_node_id) {
            (Some(fabric), Some(client)) => (fabric, client),
            _ => {
                proof {
                    let seen = commanded(start, resolved.command, data, *ctx, None, tag, N as nat);
                }
                return im::refuse(Status::UnsupportedAccess);
            },
        };
        match resolved.command {
            REQUEST_COMMISSIONING_APPROVAL => {
                proof {
                    let seen = commanded(start, resolved.command, data, *ctx, None, tag, N as nat);
                }
                self.request(fields, fabric, client)
            },
            COMMISSION_NODE => match self.grant(fields, fabric, client) {
                Err(status) => {
                    proof {
                        let seen = commanded(start, resolved.command, data, *ctx, None, tag, N as nat);
                    }
                    im::refuse(status)
                },
                Ok(request) => {
                    let window: Option<Window> = self.hooks.window(&request);
                    proof {
                        let seen = commanded(start, resolved.command, data, *ctx, window, tag, N as nat);
                    }
                    open_reverse(&mut self.reverse, window, tag)
                },
            },
            _ => {
                proof {
                    let seen = commanded(start, resolved.command, data, *ctx, None, tag, N as nat);
                }
                im::refuse(Status::UnsupportedCommand)
            },
        }
    }

    fn on_lifecycle(&mut self, event: Lifecycle) {
    }

    fn unfit_status(&self, resolved: &ResolvedCommand) -> (s: Status) {
        Status::Failure
    }
}

/// A window is asked for only where the same client asked on the same fabric and was approved.
pub proof fn law_only_an_approved_request_is_commissioned(
    st: State,
    data: Option<Seq<u8>>,
    ctx: InteractionContext,
    window: Option<Window>,
    tag: Tag,
    cap: nat,
)
    requires
        !st.reverse,
        commanded(st, COMMISSION_NODE, data, ctx, window, tag, cap).0.reverse,
    ensures
        exists|i: int|
            0 <= i < st.pending.len() && (#[trigger] st.pending[i]).approved == Some(true) && ctx.peer_node_id == Some(
                st.pending[i].client_node_id,
            ) && ctx.fabric_index == Some(st.pending[i].fabric),
{
    match (ctx.fabric_index, ctx.peer_node_id) {
        (Some(fabric), Some(client)) => {
            match fields::decode_some(data, commission_schema()) {
                Ok(items) => match fields::num(items, 0) {
                    Some(request_id) => {
                        bounded::lemma_first(st.pending, request_is_on(request_id, client, fabric));
                        if let Some(i) = bounded::first(st.pending, request_is_on(request_id, client, fabric)) {
                            assert(st.pending[i].approved == Some(true));
                        }
                    },
                    None => {},
                },
                Err(_) => {},
            }
        },
        _ => {},
    }
}

/// Asking is not deciding: a new request waits.
pub proof fn law_a_request_starts_undecided(st: State, data: Option<Seq<u8>>, fabric: FabricIndex, client: NodeId, cap: nat)
    ensures
        ({
            let after = approval(st, data, fabric, client, cap).0;
            after.pending == st.pending || (after.pending.drop_last() == st.pending && after.pending.last().approved
                is None)
        }),
{
    let after = approval(st, data, fabric, client, cap).0;
    if after.pending != st.pending {
        assert(after.pending.drop_last() =~= st.pending);
    }
}

/// What was forgotten is not commissioned.
pub proof fn law_a_forgotten_request_is_gone(st: State, request_id: u64, client: NodeId)
    ensures
        bounded::first(st.pending.filter(request_is_not(request_id, client)), request_is(request_id, client)) is None,
{
    let after = st.pending.filter(request_is_not(request_id, client));
    bounded::lemma_filter(st.pending, request_is_not(request_id, client));
    bounded::lemma_first(after, request_is(request_id, client));
}

/// `RequestCommissioningApproval` adds the request that it makes at the end, in the name of its client and its fabric, and tells
/// the product of it, where the client has none of that number, there is room and the label is no longer than 64 octets; and
/// changes nothing where it is refused.
pub proof fn law_a_request_is_taken_down<H: CommissionerControlHooks, const N: usize>(
    before: CommissionerControl<H, N>,
    after: CommissionerControl<H, N>,
    resolved: ResolvedCommand,
    b: Seq<u8>,
    items: Seq<tlv::Element>,
    request_id: u64,
    vendor: u16,
    product: u16,
    fabric: FabricIndex,
    client: NodeId,
    ctx: InteractionContext,
    tag: Tag,
    a: InvokeAnswer,
)
    requires
        CommissionerControl::invokes(&before, &after, resolved, Some(b), ctx, tag, a),
        resolved.command == 0x00,
        ctx.fabric_index == Some(fabric),
        ctx.peer_node_id == Some(client),
        fields::decode(
            b,
            seq![
                Field(0, Kind::U64, Need::Required),
                Field(1, Kind::U16, Need::Required),
                Field(2, Kind::U16, Need::Required),
                Field(3, Kind::Text, Need::Optional),
            ],
        ) == Ok::<Seq<tlv::Element>, Status>(items),
        fields::num(items, 0) == Some(request_id),
        fields::num16(items, 1) == Some(vendor),
        fields::num16(items, 2) == Some(product),
    ensures
        after.reverse == before.reverse,
        after.events@ == before.events@,
        ({
            let twice = exists|i: int|
                0 <= i < before.pending@.len() && (#[trigger] before.pending@[i]).request_id == request_id
                    && before.pending@[i].client_node_id == client;
            let long = fields::text_length(items, 3) is Some && fields::text_length(items, 3)->Some_0 > 64;
            let new = Request {
                request_id,
                client_node_id: client,
                fabric,
                vendor_id: VendorId(vendor),
                product_id: product,
                approved: None,
            };
            if long || twice || before.pending@.len() >= N {
                &&& after.pending@ == before.pending@ && after.hooks == before.hooks
                &&& a == im::refused(
                    if long {
                        Status::ConstraintError
                    } else if twice {
                        Status::Failure
                    } else {
                        Status::ResourceExhausted
                    },
                )
            } else {
                &&& a == im::done()
                &&& after.pending@ == before.pending@.push(new)
                &&& after.hooks.told() == before.hooks.told().push(new)
            }
        }),
{
    assert(approval_schema() =~= seq![
        Field(0, Kind::U64, Need::Required),
        Field(1, Kind::U16, Need::Required),
        Field(2, Kind::U16, Need::Required),
        Field(3, Kind::Text, Need::Optional),
    ]);
    let p = request_is(request_id, client);
    bounded::lemma_first(before.pending@, p);
    if bounded::first(before.pending@, p) is None {
        assert forall|i: int| 0 <= i < before.pending@.len() implies !((#[trigger] before.pending@[i]).request_id == request_id
            && before.pending@[i].client_node_id == client) by {
            assert(!p(before.pending@[i]));
        }
    } else {
        let i = bounded::first(before.pending@, p)->Some_0;
        assert(p(before.pending@[i]));
        assert(before.pending@[i].request_id == request_id);
    }
    if after.pending@ != before.pending@ {
        assert(after.pending@.last() == after.pending@[before.pending@.len() as int]);
    }
}

/// `CommissionNode` asks the client to open a window, and only the window that the product gave, where the client asked on the
/// same fabric and was approved and the window can be opened: a verifier of 97 octets, a discriminator of twelve bits, 1000 to
/// 100000 iterations and 16 to 32 octets of salt. No request changes.
pub proof fn law_an_approved_request_is_commissioned<H: CommissionerControlHooks, const N: usize>(
    before: CommissionerControl<H, N>,
    after: CommissionerControl<H, N>,
    resolved: ResolvedCommand,
    b: Seq<u8>,
    items: Seq<tlv::Element>,
    request_id: u64,
    i: int,
    fabric: FabricIndex,
    client: NodeId,
    ctx: InteractionContext,
    tag: Tag,
    a: InvokeAnswer,
)
    requires
        CommissionerControl::invokes(&before, &after, resolved, Some(b), ctx, tag, a),
        resolved.command == 0x01,
        ctx.fabric_index == Some(fabric),
        ctx.peer_node_id == Some(client),
        fields::decode(b, seq![Field(0, Kind::U64, Need::Required), Field(1, Kind::U16, Need::Required)]) == Ok::<
            Seq<tlv::Element>,
            Status,
        >(items),
        fields::num(items, 0) == Some(request_id),
        0 <= i < before.pending@.len(),
        before.pending@[i].request_id == request_id,
        before.pending@[i].client_node_id == client,
        before.pending@[i].fabric == fabric,
        forall|j: int|
            0 <= j < before.pending@.len() && j != i ==> !((#[trigger] before.pending@[j]).request_id == request_id
                && before.pending@[j].client_node_id == client),
    ensures
        after.pending@ == before.pending@,
        after.events@ == before.events@,
        before.pending@[i].approved != Some(true) ==> a == im::refused(Status::Failure) && after.reverse == before.reverse,
        before.pending@[i].approved == Some(true) ==> exists|window: Option<Window<'_>>|
            {
                let fine = window is Some && window->Some_0.pake_passcode_verifier@.len() == 97 && window->Some_0.discriminator
                    <= 0x0FFF && 1000 <= window->Some_0.iterations <= 100_000 && 16 <= window->Some_0.salt@.len() <= 32;
                &&& #[trigger] call_ensures(H::window, (&before.hooks, &before.pending@[i]), window)
                &&& !fine ==> a == im::refused(Status::Failure) && after.reverse == before.reverse
                &&& fine ==> {
                    let w = window->Some_0;
                    &&& after.reverse
                    &&& a == Ok::<(Option<CommandId>, Seq<u8>), StatusIb>(
                        (
                            Some(0x02),
                            tlv::structure_bytes(
                                tag,
                                tlv::unsigned_bytes(Tag::Context(0), w.commissioning_timeout as u64) + tlv::octets_bytes(
                                    Tag::Context(1),
                                    w.pake_passcode_verifier@,
                                ) + tlv::unsigned_bytes(Tag::Context(2), w.discriminator as u64) + tlv::unsigned_bytes(
                                    Tag::Context(3),
                                    w.iterations as u64,
                                ) + tlv::octets_bytes(Tag::Context(4), w.salt@),
                            ),
                        ),
                    )
                }
            },
{
    assert(commission_schema() =~= seq![Field(0, Kind::U64, Need::Required), Field(1, Kind::U16, Need::Required)]);
    let p = request_is_on(request_id, client, fabric);
    bounded::lemma_first(before.pending@, p);
    assert(p(before.pending@[i]));
    let k = bounded::first(before.pending@, p)->Some_0;
    assert(p(before.pending@[k]));
    assert(k == i);
}

/// A client that never asked has nothing commissioned.
pub proof fn law_nothing_is_commissioned_unasked<H: CommissionerControlHooks, const N: usize>(
    before: CommissionerControl<H, N>,
    after: CommissionerControl<H, N>,
    resolved: ResolvedCommand,
    data: Option<Seq<u8>>,
    ctx: InteractionContext,
    tag: Tag,
    a: InvokeAnswer,
)
    requires
        CommissionerControl::invokes(&before, &after, resolved, data, ctx, tag, a),
        resolved.command == 0x01,
        forall|j: int|
            0 <= j < before.pending@.len() ==> !(ctx.peer_node_id == Some((#[trigger] before.pending@[j]).client_node_id)
                && ctx.fabric_index == Some(before.pending@[j].fabric)),
    ensures
        a is Err,
        after.state() == before.state(),
{
    match (ctx.fabric_index, ctx.peer_node_id) {
        (Some(fabric), Some(client)) => {
            if let Ok(items) = fields::decode_some(data, commission_schema()) {
                if let Some(request_id) = fields::num(items, 0) {
                    let p = request_is_on(request_id, client, fabric);
                    bounded::lemma_first(before.pending@, p);
                    if let Some(k) = bounded::first(before.pending@, p) {
                        assert(p(before.pending@[k]));
                    }
                }
            }
        },
        _ => {},
    }
}

/// A decision is noted with the request that it is about and with no other, and is the last thing that is told; without such a
/// request nothing changes.
pub proof fn law_a_decision_is_about_one_request(st: State, request_id: u64, client: NodeId, decision: Decision, cap: nat)
    requires
        cap > 0,
        st.events.len() <= cap,
    ensures
        ({
            let (after, found) = decided(st, request_id, client, decision, cap);
            let asked = |r: Request| r.request_id == request_id && r.client_node_id == client;
            &&& found == exists|i: int| 0 <= i < st.pending.len() && asked(#[trigger] st.pending[i])
            &&& !found ==> after == st
            &&& after.reverse == st.reverse
            &&& after.pending.len() == st.pending.len()
            &&& forall|i: int| 0 <= i < st.pending.len() && !asked(#[trigger] st.pending[i]) ==> after.pending[i] == st.pending[i]
            &&& found ==> exists|k: int|
                {
                    &&& 0 <= k < st.pending.len() && asked(st.pending[k])
                    &&& #[trigger] after.pending[k] == (Request { approved: Some(decision is Approved), ..st.pending[k] })
                    &&& forall|i: int| 0 <= i < st.pending.len() && i != k ==> #[trigger] after.pending[i] == st.pending[i]
                }
            &&& found ==> {
                let told = CommissioningRequestResult { request_id, client_node_id: client, decision };
                &&& after.events.len() > 0 && after.events.last() == told
                &&& st.events.len() < cap ==> after.events.drop_last() == st.events
                &&& st.events.len() == cap ==> after.events.drop_last() == st.events.skip(1)
            }
        }),
{
    let p = request_is(request_id, client);
    bounded::lemma_first(st.pending, p);
    let (after, found) = decided(st, request_id, client, decision, cap);
    match bounded::first(st.pending, p) {
        Some(k) => {
            assert(p(st.pending[k]));
            assert(after.pending[k] == (Request { approved: Some(decision is Approved), ..st.pending[k] }));
            if st.events.len() < cap {
                assert(after.events.drop_last() =~= st.events);
            } else {
                assert(after.events.drop_last() =~= st.events.skip(1));
            }
        },
        None => {
            assert forall|i: int| 0 <= i < st.pending.len() implies !((#[trigger] st.pending[i]).request_id == request_id
                && st.pending[i].client_node_id == client) by {
                assert(!p(st.pending[i]));
            }
        },
    }
}

/// How the cluster describes itself follows from the features and from what the product chooses: each attribute, command and event
/// is there exactly where they say so, with who may read, write or invoke it, and nothing else is.
pub proof fn law_the_cluster_describes_itself(features: u32, o: conformance::OptionalModel, c: crate::dm::ClusterModel)
    requires
        conformance::conform(defined(), features, o) == Ok::<crate::dm::ClusterModel, ErrorCode>(c),
    ensures
        c.id == 0x0751,
        c.revision == 1,
        c.feature_map == features,
        features & !0u32 == 0,
        c.attributes.contains(conformance::shown_attribute(0x0000, None)) == (true),
        c.accepted_commands.contains(conformance::shown_command(0x00, Privilege::Manage, false, false, None)) == (true),
        c.accepted_commands.contains(conformance::shown_command(0x01, Privilege::Manage, false, false, Some(0x02u32))) == (true),
        c.events.contains(conformance::shown_event(0x00, EventPriority::Info)) == (true),
        c.attributes.len() <= 1,
        c.accepted_commands.len() <= 2,
        c.events.len() <= 1,
{
    let d = defined();
    assert(conformance::told_apart(d.attributes));
    assert(conformance::told_apart(d.commands));
    assert(conformance::told_apart(d.events));
    conformance::lemma_described(d.attributes, features, o.attributes, conformance::shown_attribute(0x0000, None), 0);
    conformance::lemma_described(d.commands, features, o.commands, conformance::shown_command(0x00, Privilege::Manage, false, false, None), 0);
    conformance::lemma_described(d.commands, features, o.commands, conformance::shown_command(0x01, Privilege::Manage, false, false, Some(0x02u32)), 1);
    conformance::lemma_described(d.events, features, o.events, conformance::shown_event(0x00, EventPriority::Info), 0);
    conformance::lemma_at_most(d.attributes, features, o.attributes, d.attributes.len() as int);
    conformance::lemma_at_most(d.commands, features, o.commands, d.commands.len() as int);
    conformance::lemma_at_most(d.events, features, o.events, d.events.len() as int);
}

} // verus!
