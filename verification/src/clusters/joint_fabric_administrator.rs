//! Joint Fabric Administrator, cluster `0x0753`: how one ecosystem's administrator gets a
//! certificate that another one signed.
//!
//! A signing request, then the certificate for it, and both inside one fail-safe: the certificate
//! is for the administrator that the request was given to, and there is one of them at most.

use vstd::prelude::*;

use crate::clusters::administrator_commissioning;
use crate::clusters::administrator_commissioning::OpenWindowRequest;
use crate::clusters::dispatch::Cluster;
use crate::clusters::joint_fabric_administrator::recorded::{Call, Recorded};
use crate::commissioning;
use crate::commissioning::{Shared, SharedModel};
use crate::conformance;
use crate::conformance::{Conformance, Conforming, Definition, DefinitionModel, Optional};
use crate::dm::Privilege;
use crate::error::ErrorCode;
use crate::fields;
use crate::fields::{Field, Fields, Kind, Need};
use crate::im;
use crate::im::{
    AttributeId, ClusterHandler, ClusterId, CommandId, EndpointId, InteractionContext, InvokeAnswer, Lifecycle, ReadAnswer, Reply,
    Resolved, ResolvedCommand, Status, StatusIb, WriteOp,
};
use crate::msg::FabricIndex;
use crate::platform::Instant;
use crate::tlv;
use crate::tlv::{Numbered, Tag};

pub mod recorded;

verus! {

/// The cluster.
pub const ID: ClusterId = 0x0753;

/// Its revision.
pub const REVISION: u16 = 1;

/// `AdministratorFabricIndex`.
pub const ADMINISTRATOR_FABRIC_INDEX: AttributeId = 0x0000;

/// `ICACCSRRequest`.
pub const ICACCSR_REQUEST: CommandId = 0x00;

/// `ICACCSRResponse`.
pub const ICACCSR_RESPONSE: CommandId = 0x01;

/// `AddICAC`.
pub const ADD_ICAC: CommandId = 0x02;

/// `ICACResponse`.
pub const ICAC_RESPONSE: CommandId = 0x03;

/// `OpenJointCommissioningWindow`.
pub const OPEN_JOINT_COMMISSIONING_WINDOW: CommandId = 0x04;

/// `TransferAnchorRequest`.
pub const TRANSFER_ANCHOR_REQUEST: CommandId = 0x05;

/// `TransferAnchorResponse`.
pub const TRANSFER_ANCHOR_RESPONSE: CommandId = 0x06;

/// `TransferAnchorComplete`.
pub const TRANSFER_ANCHOR_COMPLETE: CommandId = 0x07;

/// `AnnounceJointFabricAdministrator`.
pub const ANNOUNCE_JOINT_FABRIC_ADMINISTRATOR: CommandId = 0x08;

/// The most octets of a signing request.
pub const ICACCSR_MAX: usize = 600;

/// The most octets of a certificate.
pub const ICAC_MAX: usize = 400;

/// What a request for a signing request is answered with.
#[derive(Debug, Clone, Copy, PartialEq, Eq, Structural)]
pub enum ICACCSRResponseStatusCodeEnum {
    /// It was done.
    OK,
    /// It cannot be done now.
    Busy,
    /// The vendor of the initiator was not verified.
    VIDNotVerified,
    /// No fabric is the Joint Fabric's.
    InvalidAdministratorFabricIndex,
}

impl Numbered for ICACCSRResponseStatusCodeEnum {
    open spec fn number(self) -> u64 {
        match self {
            ICACCSRResponseStatusCodeEnum::OK => 0,
            ICACCSRResponseStatusCodeEnum::Busy => 2,
            ICACCSRResponseStatusCodeEnum::VIDNotVerified => 5,
            ICACCSRResponseStatusCodeEnum::InvalidAdministratorFabricIndex => 6,
        }
    }

    fn as_number(self) -> (v: u64) {
        match self {
            ICACCSRResponseStatusCodeEnum::OK => 0,
            ICACCSRResponseStatusCodeEnum::Busy => 2,
            ICACCSRResponseStatusCodeEnum::VIDNotVerified => 5,
            ICACCSRResponseStatusCodeEnum::InvalidAdministratorFabricIndex => 6,
        }
    }
}

/// What a certificate is answered with.
#[derive(Debug, Clone, Copy, PartialEq, Eq, Structural)]
pub enum ICACResponseStatusEnum {
    /// It was installed.
    OK,
    /// It is not for the key that was asked for.
    InvalidPublicKey,
    /// It does not chain, or names another.
    InvalidICAC,
}

impl Numbered for ICACResponseStatusEnum {
    open spec fn number(self) -> u64 {
        match self {
            ICACResponseStatusEnum::OK => 0,
            ICACResponseStatusEnum::InvalidPublicKey => 1,
            ICACResponseStatusEnum::InvalidICAC => 2,
        }
    }

    fn as_number(self) -> (v: u64) {
        match self {
            ICACResponseStatusEnum::OK => 0,
            ICACResponseStatusEnum::InvalidPublicKey => 1,
            ICACResponseStatusEnum::InvalidICAC => 2,
        }
    }
}

/// What a request for the anchor role is answered with.
#[derive(Debug, Clone, Copy, PartialEq, Eq, Structural)]
pub enum TransferAnchorResponseStatusEnum {
    /// It is given up.
    OK,
    /// The datastore is busy.
    TransferAnchorStatusDatastoreBusy,
    /// The user did not agree.
    TransferAnchorStatusNoUserConsent,
}

impl Numbered for TransferAnchorResponseStatusEnum {
    open spec fn number(self) -> u64 {
        match self {
            TransferAnchorResponseStatusEnum::OK => 0,
            TransferAnchorResponseStatusEnum::TransferAnchorStatusDatastoreBusy => 1,
            TransferAnchorResponseStatusEnum::TransferAnchorStatusNoUserConsent => 2,
        }
    }

    fn as_number(self) -> (v: u64) {
        match self {
            TransferAnchorResponseStatusEnum::OK => 0,
            TransferAnchorResponseStatusEnum::TransferAnchorStatusDatastoreBusy => 1,
            TransferAnchorResponseStatusEnum::TransferAnchorStatusNoUserConsent => 2,
        }
    }
}

/// Whether a node gives up the anchor role.
#[derive(Debug, Clone, Copy, PartialEq, Eq, Structural)]
pub enum AnchorTransfer {
    /// It does.
    Accepted,
    /// It does not, and why.
    Refused(TransferAnchorResponseStatusEnum),
}

/// What a product does for the cluster.
pub trait JointFabricHooks {
    /// A signing request for the node's own intermediate key.
    fn write_icac_csr(&self) -> Result<Vec<u8>, Status>;

    /// What is wrong with a certificate, or that nothing is.
    fn validate_icac(&self, icac: &[u8], fabric: FabricIndex) -> ICACResponseStatusEnum;

    /// Installs a certificate that it just said nothing is wrong with.
    fn install_icac(&self, icac: &[u8], fabric: FabricIndex) -> (r: Result<(), Status>)
        requires
            call_ensures(Self::validate_icac, (self, icac, fabric), ICACResponseStatusEnum::OK),
    ;

    /// Whether octets are a passcode verifier: a scalar and a point on the curve.
    fn is_verifier(&self, verifier: &[u8]) -> bool;

    /// Whether the anchor role is given up.
    fn anchor_transfer(&self) -> (r: AnchorTransfer)
        default_ensures
            r == AnchorTransfer::Refused(TransferAnchorResponseStatusEnum::TransferAnchorStatusNoUserConsent),
    {
        AnchorTransfer::Refused(TransferAnchorResponseStatusEnum::TransferAnchorStatusNoUserConsent)
    }

    /// The anchor role was given up.
    fn anchor_transferred(&self) {
    }

    /// A peer said where its cluster of this kind is.
    fn administrator_announced(&self, endpoint: EndpointId) {
    }
}

/// The cluster's definition.
pub open spec fn defined() -> DefinitionModel {
    DefinitionModel {
        id: ID,
        revision: REVISION,
        features: 0,
        attributes: seq![
            conformance::reads(ADMINISTRATOR_FABRIC_INDEX, Conformance::Mandatory),
        ],
        commands: seq![
            conformance::invokes(ICACCSR_REQUEST, Privilege::Administer, Some(ICACCSR_RESPONSE), Conformance::Mandatory),
            conformance::invokes(ADD_ICAC, Privilege::Administer, Some(ICAC_RESPONSE), Conformance::Mandatory),
            conformance::invokes(OPEN_JOINT_COMMISSIONING_WINDOW, Privilege::Administer, None, Conformance::Mandatory),
            conformance::invokes(
                TRANSFER_ANCHOR_REQUEST,
                Privilege::Administer,
                Some(TRANSFER_ANCHOR_RESPONSE),
                Conformance::Mandatory,
            ),
            conformance::invokes(TRANSFER_ANCHOR_COMPLETE, Privilege::Administer, None, Conformance::Mandatory),
            conformance::invokes(ANNOUNCE_JOINT_FABRIC_ADMINISTRATOR, Privilege::Administer, None, Conformance::Mandatory),
        ],
        generated: seq![
            (ICACCSR_RESPONSE, Conformance::Mandatory),
            (ICAC_RESPONSE, Conformance::Mandatory),
            (TRANSFER_ANCHOR_RESPONSE, Conformance::Mandatory),
        ],
        events: Seq::empty(),
    }
}

/// The cluster's definition.
pub fn definition() -> (d: Definition)
    ensures
        d@ == defined(),
{
    let d: Definition = Definition {
        id: ID,
        revision: REVISION,
        features: 0,
        attributes: vec![
            conformance::readable(ADMINISTRATOR_FABRIC_INDEX, Conformance::Mandatory),
        ],
        commands: vec![
            conformance::invocable(ICACCSR_REQUEST, Privilege::Administer, Some(ICACCSR_RESPONSE), Conformance::Mandatory),
            conformance::invocable(ADD_ICAC, Privilege::Administer, Some(ICAC_RESPONSE), Conformance::Mandatory),
            conformance::invocable(OPEN_JOINT_COMMISSIONING_WINDOW, Privilege::Administer, None, Conformance::Mandatory),
            conformance::invocable(
                TRANSFER_ANCHOR_REQUEST,
                Privilege::Administer,
                Some(TRANSFER_ANCHOR_RESPONSE),
                Conformance::Mandatory,
            ),
            conformance::invocable(TRANSFER_ANCHOR_COMPLETE, Privilege::Administer, None, Conformance::Mandatory),
            conformance::invocable(ANNOUNCE_JOINT_FABRIC_ADMINISTRATOR, Privilege::Administer, None, Conformance::Mandatory),
        ],
        generated: vec![
            (ICACCSR_RESPONSE, Conformance::Mandatory),
            (ICAC_RESPONSE, Conformance::Mandatory),
            (TRANSFER_ANCHOR_RESPONSE, Conformance::Mandatory),
        ],
        events: Vec::new(),
    };
    proof {
        assert(d@.attributes =~= defined().attributes);
        assert(d@.commands =~= defined().commands);
        assert(d@.generated =~= defined().generated);
    }
    d
}

/// What the cluster remembers.
pub struct State {
    /// The fabric that is the Joint Fabric's, where there is one.
    pub administrator_fabric: Option<FabricIndex>,
    /// The fabric that a signing request was given to.
    pub csr_issued_to: Option<FabricIndex>,
    /// Whether a certificate was added inside the fail-safe.
    pub icac_added: bool,
    /// The window and the fail-safe.
    pub shared: SharedModel,
}

/// Whether the fail-safe is armed.
pub open spec fn safe(st: State, now: Instant) -> bool {
    commissioning::held(st.shared.fail_safe, now) is Some
}

/// What stands against a signing request: without a fail-safe, or with a vendor that was not
/// verified, or without a fabric of its own the answer says so; after a certificate was added it is
/// refused.
pub open spec fn csr_status(st: State, ctx: InteractionContext) -> Result<ICACCSRResponseStatusCodeEnum, Status> {
    if !safe(st, ctx.now) {
        Ok(ICACCSRResponseStatusCodeEnum::Busy)
    } else if !ctx.vendor_id_verified {
        Ok(ICACCSRResponseStatusCodeEnum::VIDNotVerified)
    } else if st.administrator_fabric is None {
        Ok(ICACCSRResponseStatusCodeEnum::InvalidAdministratorFabricIndex)
    } else if st.icac_added {
        Err(Status::ConstraintError)
    } else {
        Ok(ICACCSRResponseStatusCodeEnum::OK)
    }
}

/// The answer to a signing request that is made or not.
pub open spec fn csr_bytes(tag: Tag, status: ICACCSRResponseStatusCodeEnum, csr: Option<Seq<u8>>) -> Seq<u8> {
    tlv::structure_bytes(
        tag,
        tlv::unsigned_bytes(Tag::Context(0), status.number()) + match csr {
            Some(csr) => tlv::octets_bytes(Tag::Context(1), csr),
            None => Seq::empty(),
        },
    )
}

/// The answer that is a status.
pub open spec fn status_bytes(tag: Tag, status: u64) -> Seq<u8> {
    tlv::structure_bytes(tag, tlv::unsigned_bytes(Tag::Context(0), status))
}

/// What `ICACCSRRequest` comes to, given what the product made.
pub open spec fn csr_requested(st: State, ctx: InteractionContext, made: Result<Seq<u8>, Status>, tag: Tag) -> (
    State,
    InvokeAnswer,
) {
    match csr_status(st, ctx) {
        Err(status) => (st, im::refused(status)),
        Ok(status) => if status is OK {
            match made {
                Err(status) => (st, im::refused(status)),
                Ok(csr) => if csr.len() > ICACCSR_MAX {
                    (st, im::refused(Status::Failure))
                } else {
                    (
                        State { csr_issued_to: ctx.fabric_index, ..st },
                        Ok((Some(ICACCSR_RESPONSE), csr_bytes(tag, status, Some(csr)))),
                    )
                },
            }
        } else {
            (st, Ok((Some(ICACCSR_RESPONSE), csr_bytes(tag, status, None))))
        },
    }
}

/// What stands against a certificate before it is looked at: the fabric that it is for, or the
/// answer.
pub open spec fn icac_checked(st: State, ctx: InteractionContext, length: nat) -> Result<FabricIndex, InvokeRefusal> {
    match ctx.accessing() {
        None => Err(InvokeRefusal::Refused(Status::InvalidCommand)),
        Some(fabric) => if !safe(st, ctx.now) {
            Err(InvokeRefusal::Refused(Status::FailsafeRequired))
        } else if st.icac_added {
            Err(InvokeRefusal::Refused(Status::ConstraintError))
        } else if length > ICAC_MAX {
            Err(InvokeRefusal::Refused(Status::ConstraintError))
        } else if st.csr_issued_to != Some(fabric) {
            Err(InvokeRefusal::Answered(ICACResponseStatusEnum::InvalidPublicKey))
        } else {
            Ok(fabric)
        },
    }
}

/// How a certificate is turned down.
#[derive(Debug, Clone, Copy, PartialEq, Eq, Structural)]
pub enum InvokeRefusal {
    /// With a status alone.
    Refused(Status),
    /// With an answer.
    Answered(ICACResponseStatusEnum),
}

/// What `AddICAC` comes to, given what the product says of the certificate and of installing it.
pub open spec fn icac_added(
    st: State,
    ctx: InteractionContext,
    length: nat,
    verdict: ICACResponseStatusEnum,
    installed: Result<(), Status>,
    tag: Tag,
) -> (State, InvokeAnswer) {
    match icac_checked(st, ctx, length) {
        Err(InvokeRefusal::Refused(status)) => (st, im::refused(status)),
        Err(InvokeRefusal::Answered(status)) => (
            st,
            Ok((Some(ICAC_RESPONSE), status_bytes(tag, status.number()))),
        ),
        Ok(fabric) => if !(verdict is OK) {
            (st, Ok((Some(ICAC_RESPONSE), status_bytes(tag, verdict.number()))))
        } else {
            match installed {
                Err(status) => (st, im::refused(status)),
                Ok(_) => (
                    State { icac_added: true, administrator_fabric: Some(fabric), ..st },
                    Ok((Some(ICAC_RESPONSE), status_bytes(tag, ICACResponseStatusEnum::OK.number()))),
                ),
            }
        },
    }
}

/// What `OpenJointCommissioningWindow` comes to, given whether the verifier is one: with a fabric of
/// its own, what `OpenCommissioningWindow` does.
pub open spec fn joint_opened(
    st: State,
    ctx: InteractionContext,
    r: administrator_commissioning::RequestModel,
    valid: bool,
) -> (State, InvokeAnswer) {
    if st.administrator_fabric is None {
        (
            st,
            Err(im::failed(ICACCSRResponseStatusCodeEnum::InvalidAdministratorFabricIndex.number() as u8)),
        )
    } else {
        let (shared, refused) = administrator_commissioning::opened(st.shared, r, valid, None, ctx.fabric_index, ctx.now);
        (State { shared, ..st }, administrator_commissioning::answer_of(refused))
    }
}

/// The fields of `AddICAC`.
pub open spec fn add_schema() -> Seq<Field> {
    seq![Field(1, Kind::Octets, Need::Required)]
}

/// The fields of `OpenJointCommissioningWindow`.
pub open spec fn open_schema() -> Seq<Field> {
    seq![
        Field(0, Kind::U16, Need::Required),
        Field(1, Kind::Octets, Need::Required),
        Field(2, Kind::U16, Need::Required),
        Field(3, Kind::U32, Need::Required),
        Field(4, Kind::Octets, Need::Required),
    ]
}

/// The fields of `AnnounceJointFabricAdministrator`.
pub open spec fn announce_schema() -> Seq<Field> {
    seq![Field(0, Kind::U16, Need::Required)]
}

/// The certificate of `AddICAC`, or what is wrong with the fields.
pub open spec fn add_decoded(data: Option<Seq<u8>>) -> Result<Seq<u8>, Status> {
    match fields::decode_some(data, add_schema()) {
        Err(status) => Err(status),
        Ok(items) => match fields::octets(data->0, items, 1) {
            Some(icac) => Ok(icac),
            None => Err(Status::InvalidCommand),
        },
    }
}

/// What `OpenJointCommissioningWindow` asks for, or what is wrong with the fields.
pub open spec fn open_decoded(data: Option<Seq<u8>>) -> Result<administrator_commissioning::RequestModel, Status> {
    match fields::decode_some(data, open_schema()) {
        Err(status) => Err(status),
        Ok(items) => match (
            fields::num16(items, 0),
            fields::octets(data->0, items, 1),
            fields::num16(items, 2),
            fields::num32(items, 3),
            fields::octets(data->0, items, 4),
        ) {
            (Some(timeout_seconds), Some(verifier), Some(discriminator), Some(iterations), Some(salt)) => Ok(
                administrator_commissioning::RequestModel { timeout_seconds, verifier, discriminator, iterations, salt },
            ),
            _ => Err(Status::InvalidCommand),
        },
    }
}

/// Where the peer's cluster is, or what is wrong with the fields.
pub open spec fn announce_decoded(data: Option<Seq<u8>>) -> Result<EndpointId, Status> {
    match fields::decode_some(data, announce_schema()) {
        Err(status) => Err(status),
        Ok(items) => match fields::num16(items, 0) {
            Some(endpoint) => Ok(endpoint),
            None => Err(Status::InvalidCommand),
        },
    }
}

/// What the product says in the course of a command.
pub struct Said {
    /// The signing request.
    pub csr: Result<Seq<u8>, Status>,
    /// What is wrong with the certificate.
    pub verdict: ICACResponseStatusEnum,
    /// Whether the certificate was installed.
    pub installed: Result<(), Status>,
    /// Whether the verifier is one.
    pub valid: bool,
    /// Whether the anchor role is given up.
    pub transfer: AnchorTransfer,
}

/// What a request for the anchor role is answered with.
pub open spec fn transfer_status(t: AnchorTransfer) -> TransferAnchorResponseStatusEnum {
    match t {
        AnchorTransfer::Accepted => TransferAnchorResponseStatusEnum::OK,
        AnchorTransfer::Refused(why) => why,
    }
}

/// What a command comes to, given what the product says.
pub open spec fn commanded(
    st: State,
    command: CommandId,
    data: Option<Seq<u8>>,
    ctx: InteractionContext,
    said: Said,
    tag: Tag,
) -> (State, InvokeAnswer) {
    if command == ICACCSR_REQUEST {
        csr_requested(st, ctx, said.csr, tag)
    } else if command == ADD_ICAC {
        match add_decoded(data) {
            Err(status) => (st, im::refused(status)),
            Ok(icac) => icac_added(st, ctx, icac.len(), said.verdict, said.installed, tag),
        }
    } else if command == OPEN_JOINT_COMMISSIONING_WINDOW {
        match open_decoded(data) {
            Err(status) => (st, im::refused(status)),
            Ok(r) => joint_opened(st, ctx, r, said.valid),
        }
    } else if command == TRANSFER_ANCHOR_REQUEST {
        (
            st,
            Ok((Some(TRANSFER_ANCHOR_RESPONSE), status_bytes(tag, transfer_status(said.transfer).number()))),
        )
    } else if command == TRANSFER_ANCHOR_COMPLETE {
        (State { administrator_fabric: None, ..st }, im::done())
    } else if command == ANNOUNCE_JOINT_FABRIC_ADMINISTRATOR {
        match announce_decoded(data) {
            Err(status) => (st, im::refused(status)),
            Ok(_) => (st, im::done()),
        }
    } else {
        (st, im::refused(Status::UnsupportedCommand))
    }
}

/// What was made, as a value.
pub open spec fn made(r: Result<Vec<u8>, Status>) -> Result<Seq<u8>, Status> {
    match r {
        Ok(csr) => Ok(csr@),
        Err(status) => Err(status),
    }
}

fn encode_status(tag: Tag, status: u64) -> (out: Vec<u8>)
    ensures
        out@ == status_bytes(tag, status),
{
    let mut body: Vec<u8> = Vec::new();
    tlv::put_unsigned(&mut body, Tag::Context(0), status);
    let mut out: Vec<u8> = Vec::new();
    tlv::put_structure(&mut out, tag, &body);
    proof {
        assert(body@ =~= tlv::unsigned_bytes(Tag::Context(0), status));
        assert(out@ =~= status_bytes(tag, status));
    }
    out
}

fn encode_csr(tag: Tag, status: ICACCSRResponseStatusCodeEnum, csr: Option<&Vec<u8>>) -> (out: Vec<u8>)
    ensures
        out@ == csr_bytes(
            tag,
            status,
            match csr {
                Some(csr) => Some(csr@),
                None => None,
            },
        ),
{
    let mut body: Vec<u8> = Vec::new();
    tlv::put_unsigned(&mut body, Tag::Context(0), status.as_number());
    proof {
        assert(body@ =~= tlv::unsigned_bytes(Tag::Context(0), status.number()));
        assert(body@ + Seq::<u8>::empty() =~= body@);
    }
    if let Some(csr) = csr {
        tlv::put_octets(&mut body, Tag::Context(1), csr.as_slice());
    }
    let mut out: Vec<u8> = Vec::new();
    tlv::put_structure(&mut out, tag, &body);
    proof {
        assert(out@ =~= tlv::structure_bytes(tag, body@));
    }
    out
}

fn decode_add<'a>(data: Option<&'a [u8]>) -> (r: Result<&'a [u8], Status>)
    ensures
        match r {
            Ok(icac) => add_decoded(im::octets(data)) == Ok::<Seq<u8>, Status>(icac@),
            Err(status) => add_decoded(im::octets(data)) == Err::<Seq<u8>, Status>(status),
        },
{
    let schema: Vec<Field> = vec![Field(1, Kind::Octets, Need::Required)];
    proof {
        assert(schema@ =~= add_schema());
    }
    let f: Fields<'a> = match fields::read_some(data, &schema) {
        Err(status) => return Err(status),
        Ok(f) => f,
    };
    match f.octets(1) {
        Some(icac) => Ok(icac),
        None => Err(Status::InvalidCommand),
    }
}

fn decode_open<'a>(data: Option<&'a [u8]>) -> (r: Result<OpenWindowRequest<'a>, Status>)
    ensures
        match r {
            Ok(q) => open_decoded(im::octets(data)) == Ok::<administrator_commissioning::RequestModel, Status>(q@),
            Err(status) => open_decoded(im::octets(data)) == Err::<administrator_commissioning::RequestModel, Status>(status),
        },
{
    let schema: Vec<Field> = vec![
        Field(0, Kind::U16, Need::Required),
        Field(1, Kind::Octets, Need::Required),
        Field(2, Kind::U16, Need::Required),
        Field(3, Kind::U32, Need::Required),
        Field(4, Kind::Octets, Need::Required),
    ];
    proof {
        assert(schema@ =~= open_schema());
    }
    let f: Fields<'a> = match fields::read_some(data, &schema) {
        Err(status) => return Err(status),
        Ok(f) => f,
    };
    match (f.num16(0), f.octets(1), f.num16(2), f.num32(3), f.octets(4)) {
        (Some(timeout_seconds), Some(verifier), Some(discriminator), Some(iterations), Some(salt)) => Ok(
            OpenWindowRequest { timeout_seconds, verifier, discriminator, iterations, salt },
        ),
        _ => Err(Status::InvalidCommand),
    }
}

fn decode_announce(data: Option<&[u8]>) -> (r: Result<EndpointId, Status>)
    ensures
        r == announce_decoded(im::octets(data)),
{
    let schema: Vec<Field> = vec![Field(0, Kind::U16, Need::Required)];
    proof {
        assert(schema@ =~= announce_schema());
    }
    let f: Fields = match fields::read_some(data, &schema) {
        Err(status) => return Err(status),
        Ok(f) => f,
    };
    match f.num16(0) {
        Some(endpoint) => Ok(endpoint),
        None => Err(Status::InvalidCommand),
    }
}

/// What an attribute is answered with.
pub open spec fn attribute_answer(administrator_fabric: Option<FabricIndex>, id: AttributeId, tag: Tag) -> ReadAnswer {
    if id == ADMINISTRATOR_FABRIC_INDEX {
        Ok(
            tlv::nullable_bytes(
                tag,
                match administrator_fabric {
                    Some(f) => Some(f.0 as u64),
                    None => None,
                },
            ),
        )
    } else {
        Err(Status::UnsupportedAttribute)
    }
}

/// Answers a read.
pub fn encode_attribute(administrator_fabric: Option<FabricIndex>, attribute: AttributeId, tag: Tag) -> (a: Result<
    Vec<u8>,
    Status,
>)
    ensures
        im::read_answer(a) == attribute_answer(administrator_fabric, attribute, tag),
{
    match attribute {
        ADMINISTRATOR_FABRIC_INDEX => {
            let v: Option<u64> = match administrator_fabric {
                Some(f) => Some(f.0 as u64),
                None => None,
            };
            let mut out: Vec<u8> = Vec::new();
            tlv::put_nullable(&mut out, tag, v);
            proof {
                assert(out@ =~= tlv::nullable_bytes(tag, v));
            }
            Ok(out)
        },
        _ => Err(Status::UnsupportedAttribute),
    }
}

/// What a command tells the product, where nothing stands against it.
pub open spec fn call_of(st: State, command: CommandId, data: Option<Seq<u8>>, ctx: InteractionContext, said: Said) -> Option<Call> {
    if command == ICACCSR_REQUEST {
        match csr_status(st, ctx) {
            Ok(ICACCSRResponseStatusCodeEnum::OK) => Some(Call::Csr(said.csr)),
            _ => None,
        }
    } else if command == ADD_ICAC {
        match add_decoded(data) {
            Ok(icac) => match icac_checked(st, ctx, icac.len()) {
                Ok(fabric) => if said.verdict is OK {
                    Some(Call::Install(icac, fabric, said.installed))
                } else {
                    None
                },
                Err(_) => None,
            },
            Err(_) => None,
        }
    } else if command == TRANSFER_ANCHOR_COMPLETE {
        Some(Call::Transferred)
    } else if command == ANNOUNCE_JOINT_FABRIC_ADMINISTRATOR {
        match announce_decoded(data) {
            Ok(endpoint) => Some(Call::Announced(endpoint)),
            Err(_) => None,
        }
    } else {
        None
    }
}

/// The Joint Fabric Administrator cluster.
pub struct JointFabricAdministrator<'a, H: JointFabricHooks> {
    /// The product, with what it was told.
    pub hooks: Recorded<'a, H>,
    /// The window and the fail-safe.
    pub shared: Shared,
    /// The fabric that is the Joint Fabric's, where there is one.
    pub administrator_fabric: Option<FabricIndex>,
    /// The fabric that a signing request was given to.
    pub csr_issued_to: Option<FabricIndex>,
    /// Whether a certificate was added inside the fail-safe.
    pub icac_added: bool,
}

impl<'a, H: JointFabricHooks> JointFabricAdministrator<'a, H> {
    /// What the cluster remembers.
    pub open spec fn state(&self) -> State {
        State {
            administrator_fabric: self.administrator_fabric,
            csr_issued_to: self.csr_issued_to,
            icac_added: self.icac_added,
            shared: self.shared@,
        }
    }

    /// Whether the product, asked what a command needs to know and told what it brings, may say this:
    /// a signing request where nothing stands against one, a verdict on a certificate that nothing
    /// stands against and on installing it where the verdict is good, whether a verifier is one, and
    /// whether the anchor role is given up.
    pub open spec fn says(&self, command: CommandId, data: Option<Seq<u8>>, ctx: InteractionContext, said: Said) -> bool {
        if command == ICACCSR_REQUEST {
            csr_status(self.state(), ctx) == Ok::<ICACCSRResponseStatusCodeEnum, Status>(ICACCSRResponseStatusCodeEnum::OK)
                ==> exists|csr: Result<Vec<u8>, Status>| #[trigger]
                call_ensures(H::write_icac_csr, (self.hooks.product(),), csr) && said.csr == made(csr)
        } else if command == ADD_ICAC {
            add_decoded(data) matches Ok(icac) ==> icac_checked(self.state(), ctx, icac.len()) matches Ok(fabric) ==> {
                &&& exists|c: &[u8]| c@ == icac && #[trigger] call_ensures(H::validate_icac, (self.hooks.product(), c, fabric), said.verdict)
                &&& said.verdict is OK ==> exists|c: &[u8]|
                    c@ == icac && #[trigger] call_ensures(H::install_icac, (self.hooks.product(), c, fabric), said.installed)
            }
        } else if command == OPEN_JOINT_COMMISSIONING_WINDOW {
            open_decoded(data) matches Ok(r) ==> exists|v: &[u8]|
                v@ == r.verifier && #[trigger] call_ensures(H::is_verifier, (self.hooks.product(), v), said.valid)
        } else if command == TRANSFER_ANCHOR_REQUEST {
            call_ensures(H::anchor_transfer, (self.hooks.product(),), said.transfer)
        } else if command == TRANSFER_ANCHOR_COMPLETE {
            call_ensures(H::anchor_transferred, (self.hooks.product(),), ())
        } else {
            command == ANNOUNCE_JOINT_FABRIC_ADMINISTRATOR ==> (announce_decoded(data) matches Ok(endpoint) ==> call_ensures(
                H::administrator_announced,
                (self.hooks.product(), endpoint),
                (),
            ))
        }
    }

    /// A cluster on a node that is not part of a Joint Fabric.
    pub fn new(hooks: &'a H, shared: Shared) -> (c: Self)
        ensures
            c.hooks.product() == hooks,
            c.hooks.calls() == Seq::<Call>::empty(),
            c.state() == (State {
                administrator_fabric: None,
                csr_issued_to: None,
                icac_added: false,
                shared: shared@,
            }),
    {
        JointFabricAdministrator {
            hooks: Recorded::new(hooks),
            shared,
            administrator_fabric: None,
            csr_issued_to: None,
            icac_added: false,
        }
    }

    /// The description for features and for what the product chooses.
    pub fn conforming(features: u32, optional: &Optional) -> (r: Result<Conforming, ErrorCode>)
        ensures
            conformance::outcome(r) == conformance::conform(defined(), features, optional@),
    {
        Conforming::new(&definition(), features, optional)
    }

    /// `AdministratorFabricIndex`.
    pub fn administrator_fabric(&self) -> (f: Option<FabricIndex>)
        ensures
            f == self.administrator_fabric,
    {
        self.administrator_fabric
    }

    /// Says which fabric is the Joint Fabric's.
    pub fn set_administrator_fabric(&mut self, fabric: Option<FabricIndex>)
        ensures
            final(self).state() == (State { administrator_fabric: fabric, ..old(self).state() }),
            final(self).hooks == old(self).hooks,
    {
        self.administrator_fabric = fabric;
    }

    /// Forgets what holds inside one fail-safe.
    pub fn reset_fail_safe_state(&mut self)
        ensures
            final(self).state() == (State { csr_issued_to: None, icac_added: false, ..old(self).state() }),
            final(self).hooks == old(self).hooks,
    {
        self.csr_issued_to = None;
        self.icac_added = false;
    }

    fn fail_safe_armed(&self, ctx: &InteractionContext) -> (r: bool)
        ensures
            r == safe(self.state(), ctx.now),
    {
        self.shared.fail_safe.is_armed(ctx.now)
    }

    /// What stands against a signing request.
    pub fn icac_csr_request(&self, ctx: &InteractionContext) -> (r: Result<ICACCSRResponseStatusCodeEnum, Status>)
        ensures
            r == csr_status(self.state(), *ctx),
    {
        if !self.fail_safe_armed(ctx) {
            return Ok(ICACCSRResponseStatusCodeEnum::Busy);
        }
        if !ctx.vendor_id_verified {
            return Ok(ICACCSRResponseStatusCodeEnum::VIDNotVerified);
        }
        if self.administrator_fabric.is_none() {
            return Ok(ICACCSRResponseStatusCodeEnum::InvalidAdministratorFabricIndex);
        }
        if self.icac_added {
            return Err(Status::ConstraintError);
        }
        Ok(ICACCSRResponseStatusCodeEnum::OK)
    }

    /// Answers a signing request with what the product made.
    pub fn issue_csr(&mut self, csr: Result<Vec<u8>, Status>, ctx: &InteractionContext, tag: Tag) -> (a: Result<Reply, StatusIb>)
        ensures
            (final(self).state(), im::invoke_answer(a)) == csr_requested(old(self).state(), *ctx, made(csr), tag),
            final(self).hooks == old(self).hooks,
    {
        let status: ICACCSRResponseStatusCodeEnum = match self.icac_csr_request(ctx) {
            Err(status) => return im::refuse(status),
            Ok(status) => status,
        };
        match status {
            ICACCSRResponseStatusCodeEnum::OK => {},
            _ => return im::respond(ICACCSR_RESPONSE, encode_csr(tag, status, None)),
        }
        let csr: Vec<u8> = match csr {
            Err(status) => return im::refuse(status),
            Ok(csr) => csr,
        };
        if csr.len() > ICACCSR_MAX {
            return im::refuse(Status::Failure);
        }
        self.csr_issued_to = ctx.fabric_index;
        im::respond(ICACCSR_RESPONSE, encode_csr(tag, status, Some(&csr)))
    }

    /// The fabric that a certificate is for, or how it is turned down before it is looked at.
    pub fn may_add_icac(&self, icac: &[u8], ctx: &InteractionContext) -> (r: Result<FabricIndex, InvokeRefusal>)
        ensures
            r == icac_checked(self.state(), *ctx, icac@.len()),
    {
        let fabric: FabricIndex = match ctx.fabric() {
            None => return Err(InvokeRefusal::Refused(Status::InvalidCommand)),
            Some(fabric) => fabric,
        };
        if !self.fail_safe_armed(ctx) {
            return Err(InvokeRefusal::Refused(Status::FailsafeRequired));
        }
        if self.icac_added {
            return Err(InvokeRefusal::Refused(Status::ConstraintError));
        }
        if icac.len() > ICAC_MAX {
            return Err(InvokeRefusal::Refused(Status::ConstraintError));
        }
        if !commissioning::same_fabric(self.csr_issued_to, Some(fabric)) {
            return Err(InvokeRefusal::Answered(ICACResponseStatusEnum::InvalidPublicKey));
        }
        Ok(fabric)
    }

    /// Answers a certificate with what the product says of it and of installing it.
    pub fn settle_icac(
        &mut self,
        icac: &[u8],
        verdict: ICACResponseStatusEnum,
        installed: Result<(), Status>,
        ctx: &InteractionContext,
        tag: Tag,
    ) -> (a: Result<Reply, StatusIb>)
        ensures
            (final(self).state(), im::invoke_answer(a)) == icac_added(
                old(self).state(),
                *ctx,
                icac@.len(),
                verdict,
                installed,
                tag,
            ),
            final(self).hooks == old(self).hooks,
    {
        let fabric: FabricIndex = match self.may_add_icac(icac, ctx) {
            Err(InvokeRefusal::Refused(status)) => return im::refuse(status),
            Err(InvokeRefusal::Answered(status)) => return im::respond(
                ICAC_RESPONSE,
                encode_status(tag, status.as_number()),
            ),
            Ok(fabric) => fabric,
        };
        match verdict {
            ICACResponseStatusEnum::OK => {},
            _ => return im::respond(ICAC_RESPONSE, encode_status(tag, verdict.as_number())),
        }
        if let Err(status) = installed {
            return im::refuse(status);
        }
        self.icac_added = true;
        self.administrator_fabric = Some(fabric);
        im::respond(ICAC_RESPONSE, encode_status(tag, ICACResponseStatusEnum::OK.as_number()))
    }

    /// Opens a window for another ecosystem, given whether the verifier is one.
    pub fn open_joint_window(&mut self, request: &OpenWindowRequest<'_>, valid: bool, ctx: &InteractionContext) -> (a: Result<
        Reply,
        StatusIb,
    >)
        ensures
            (final(self).state(), im::invoke_answer(a)) == joint_opened(old(self).state(), *ctx, request@, valid),
            final(self).hooks == old(self).hooks,
    {
        if self.administrator_fabric.is_none() {
            return Err(
                StatusIb::cluster_failure(
                    ICACCSRResponseStatusCodeEnum::InvalidAdministratorFabricIndex.as_number() as u8,
                ),
            );
        }
        match administrator_commissioning::open_enhanced(
            &mut self.shared,
            request,
            valid,
            None,
            ctx.fabric_index,
            ctx.now,
        ) {
            Ok(_) => im::no_response(),
            Err(status) => Err(status),
        }
    }
}

impl<'a, H: JointFabricHooks> Cluster for JointFabricAdministrator<'a, H> {
    const ID: ClusterId = ID;
}

impl<'a, H: JointFabricHooks> ClusterHandler for JointFabricAdministrator<'a, H> {
    open spec fn answers(&self, resolved: Resolved, ctx: InteractionContext, tag: Tag, a: ReadAnswer) -> bool {
        a == attribute_answer(self.administrator_fabric, resolved.attribute, tag)
    }

    open spec fn writes(
        before: &Self,
        after: &Self,
        resolved: Resolved,
        data: Seq<u8>,
        op: WriteOp,
        ctx: InteractionContext,
        r: Result<(), Status>,
    ) -> bool {
        *after == *before && r == Err::<(), Status>(Status::UnsupportedWrite)
    }

    open spec fn invokes(
        before: &Self,
        after: &Self,
        resolved: ResolvedCommand,
        fields: Option<Seq<u8>>,
        ctx: InteractionContext,
        tag: Tag,
        a: InvokeAnswer,
    ) -> bool {
        exists|said: Said|
            {
                &&& before.says(resolved.command, fields, ctx, said)
                &&& (after.state(), a) == #[trigger] commanded(before.state(), resolved.command, fields, ctx, said, tag)
                &&& match call_of(before.state(), resolved.command, fields, ctx, said) {
                    Some(call) => after.hooks.called(&before.hooks, call),
                    None => after.hooks == before.hooks,
                }
            }
    }

    open spec fn outlives(before: &Self, after: &Self, event: Lifecycle) -> bool {
        *after == *before
    }

    open spec fn unfit(&self, resolved: ResolvedCommand) -> Status {
        Status::Failure
    }

    fn answer(&self, resolved: &Resolved, ctx: &InteractionContext, tag: Tag) -> (a: Result<Vec<u8>, Status>) {
        encode_attribute(self.administrator_fabric, resolved.attribute, tag)
    }

    fn write(&mut self, resolved: &Resolved, data: &[u8], op: WriteOp, ctx: &InteractionContext) -> (r: Result<(), Status>) {
        Err(Status::UnsupportedWrite)
    }

    fn perform(
        &mut self,
        resolved: &ResolvedCommand,
        fields: Option<&[u8]>,
        ctx: &InteractionContext,
        tag: Tag,
    ) -> (a: Result<Reply, StatusIb>) {
        let ghost before = self.state();
        let ghost mut said = Said {
            csr: Err(Status::Failure),
            verdict: ICACResponseStatusEnum::InvalidICAC,
            installed: Err(Status::Failure),
            valid: false,
            transfer: AnchorTransfer::Accepted,
        };
        let a: Result<Reply, StatusIb> = match resolved.command {
            ICACCSR_REQUEST => {
                let csr: Result<Vec<u8>, Status> = match self.icac_csr_request(ctx) {
                    Ok(ICACCSRResponseStatusCodeEnum::OK) => self.hooks.write_icac_csr(),
                    _ => Err(Status::Failure),
                };
                proof {
                    said = Said { csr: made(csr), ..said };
                }
                self.issue_csr(csr, ctx, tag)
            },
            ADD_ICAC => match decode_add(fields) {
                Err(status) => im::refuse(status),
                Ok(icac) => {
                    let mut verdict: ICACResponseStatusEnum = ICACResponseStatusEnum::InvalidICAC;
                    let mut installed: Result<(), Status> = Err(Status::Failure);
                    if let Ok(fabric) = self.may_add_icac(icac, ctx) {
                        verdict = self.hooks.validate_icac(icac, fabric);
                        if verdict == ICACResponseStatusEnum::OK {
                            installed = self.hooks.install_icac(icac, fabric);
                        }
                    }
                    proof {
                        said = Said { verdict, installed, ..said };
                    }
                    self.settle_icac(icac, verdict, installed, ctx, tag)
                },
            },
            OPEN_JOINT_COMMISSIONING_WINDOW => match decode_open(fields) {
                Err(status) => im::refuse(status),
                Ok(request) => {
                    let valid: bool = self.hooks.is_verifier(request.verifier);
                    proof {
                        said = Said { valid, ..said };
                        assert(open_decoded(im::octets(fields))->Ok_0.verifier == request.verifier@);
                        assert(call_ensures(H::is_verifier, (old(self).hooks.product(), request.verifier), said.valid));
                    }
                    self.open_joint_window(&request, valid, ctx)
                },
            },
            TRANSFER_ANCHOR_REQUEST => {
                let transfer: AnchorTransfer = self.hooks.anchor_transfer();
                proof {
                    said = Said { transfer, ..said };
                }
                let status: TransferAnchorResponseStatusEnum = match transfer {
                    AnchorTransfer::Accepted => TransferAnchorResponseStatusEnum::OK,
                    AnchorTransfer::Refused(why) => why,
                };
                im::respond(TRANSFER_ANCHOR_RESPONSE, encode_status(tag, status.as_number()))
            },
            TRANSFER_ANCHOR_COMPLETE => {
                self.hooks.anchor_transferred();
                self.administrator_fabric = None;
                im::no_response()
            },
            ANNOUNCE_JOINT_FABRIC_ADMINISTRATOR => match decode_announce(fields) {
                Err(status) => im::refuse(status),
                Ok(endpoint) => {
                    self.hooks.administrator_announced(endpoint);
                    im::no_response()
                },
            },
            _ => im::refuse(Status::UnsupportedCommand),
        };
        proof {
            assert(old(self).says(resolved.command, im::octets(fields), *ctx, said));
            assert((self.state(), im::invoke_answer(a)) == commanded(
                before,
                resolved.command,
                im::octets(fields),
                *ctx,
                said,
                tag,
            ));
        }
        a
    }

    fn on_lifecycle(&mut self, event: Lifecycle) {
    }

    fn unfit_status(&self, resolved: &ResolvedCommand) -> (s: Status) {
        Status::Failure
    }
}

/// Without an armed fail-safe no signing request is given out and no certificate is added.
pub proof fn law_nothing_happens_without_a_fail_safe(
    st: State,
    ctx: InteractionContext,
    csr: Result<Seq<u8>, Status>,
    length: nat,
    verdict: ICACResponseStatusEnum,
    installed: Result<(), Status>,
    tag: Tag,
)
    requires
        !safe(st, ctx.now),
    ensures
        csr_requested(st, ctx, csr, tag).0 == st,
        icac_added(st, ctx, length, verdict, installed, tag).0 == st,
{
}

/// A certificate is handed to the product for installing only inside an armed fail-safe, for the fabric
/// that the last signing request was given to, once, and where the product said that nothing is wrong
/// with it.
pub proof fn law_only_a_good_certificate_is_installed(
    st: State,
    command: CommandId,
    data: Option<Seq<u8>>,
    ctx: InteractionContext,
    said: Said,
)
    ensures
        call_of(st, command, data, ctx, said) matches Some(Call::Install(icac, fabric, _)) ==> {
            &&& command == ADD_ICAC
            &&& safe(st, ctx.now)
            &&& !st.icac_added
            &&& icac.len() <= ICAC_MAX
            &&& st.csr_issued_to == Some(fabric)
            &&& said.verdict is OK
        },
{
}

/// A certificate is added only for the fabric that the last signing request was given to.
pub proof fn law_a_certificate_answers_its_own_request(
    st: State,
    ctx: InteractionContext,
    length: nat,
    verdict: ICACResponseStatusEnum,
    installed: Result<(), Status>,
    tag: Tag,
)
    requires
        !st.icac_added,
    ensures
        ({
            let after = icac_added(st, ctx, length, verdict, installed, tag).0;
            after.icac_added ==> {
                &&& ctx.accessing() is Some
                &&& st.csr_issued_to == ctx.accessing()
                &&& after.administrator_fabric == ctx.accessing()
                &&& verdict is OK
                &&& installed is Ok
                &&& length <= ICAC_MAX
            }
        }),
{
}

/// Inside one fail-safe one certificate is added at most: after the first, another one and another
/// signing request break a constraint and change nothing.
pub proof fn law_one_certificate_per_fail_safe(
    st: State,
    ctx: InteractionContext,
    csr: Result<Seq<u8>, Status>,
    length: nat,
    verdict: ICACResponseStatusEnum,
    installed: Result<(), Status>,
    tag: Tag,
)
    requires
        st.icac_added,
        safe(st, ctx.now),
        ctx.accessing() is Some,
        ctx.vendor_id_verified,
        st.administrator_fabric is Some,
    ensures
        csr_requested(st, ctx, csr, tag) == (st, im::refused(Status::ConstraintError)),
        icac_added(st, ctx, length, verdict, installed, tag) == (st, im::refused(Status::ConstraintError)),
{
}

/// A joint window is a commissioning window: where it opens, it is the window that the commissioning
/// command opens.
pub proof fn law_a_joint_window_is_a_commissioning_window(
    st: State,
    ctx: InteractionContext,
    r: administrator_commissioning::RequestModel,
    valid: bool,
)
    ensures
        joint_opened(st, ctx, r, valid).0.shared == if st.administrator_fabric is Some {
            administrator_commissioning::opened(st.shared, r, valid, None, ctx.fabric_index, ctx.now).0
        } else {
            st.shared
        },
{
}

/// Whether the product, which was told of some calls before, was told of this one after them and of nothing else.
pub open spec fn hears<'a, H: JointFabricHooks>(
    before: JointFabricAdministrator<'a, H>,
    after: JointFabricAdministrator<'a, H>,
    call: Call,
) -> bool {
    after.hooks.calls() == before.hooks.calls().push(call)
}

/// Whether the product, asked what is wrong with a certificate, may say this.
pub open spec fn finds<'a, H: JointFabricHooks>(
    c: JointFabricAdministrator<'a, H>,
    icac: Seq<u8>,
    fabric: FabricIndex,
    verdict: ICACResponseStatusEnum,
) -> bool {
    exists|octets: &[u8]|
        octets@ == icac && #[trigger] call_ensures(H::validate_icac, (c.hooks.product(), octets, fabric), verdict)
}

/// `ICACCSRRequest` is answered with the signing request that the product makes, which is noted for the accessing fabric, where
/// the fail-safe is armed, the vendor was verified, a fabric is the Joint Fabric's and no certificate was added; and otherwise
/// with what stands against it, without the product hearing of it.
pub proof fn law_a_signing_request_is_given_out<'a, H: JointFabricHooks>(
    before: JointFabricAdministrator<'a, H>,
    after: JointFabricAdministrator<'a, H>,
    resolved: ResolvedCommand,
    data: Option<Seq<u8>>,
    ctx: InteractionContext,
    tag: Tag,
    a: InvokeAnswer,
)
    requires
        JointFabricAdministrator::invokes(&before, &after, resolved, data, ctx, tag, a),
        resolved.command == 0x00,
    ensures
        after.administrator_fabric == before.administrator_fabric,
        after.icac_added == before.icac_added,
        after.shared@ == before.shared@,
        ({
            let held = before.shared@.fail_safe.context;
            let armed = held is Some && ctx.now.micros < held->Some_0.deadline.micros;
            let fine = armed && ctx.vendor_id_verified && before.administrator_fabric is Some && !before.icac_added;
            &&& !fine ==> {
                &&& after.csr_issued_to == before.csr_issued_to && after.hooks == before.hooks
                &&& if armed && ctx.vendor_id_verified && before.administrator_fabric is Some {
                    a == im::refused(Status::ConstraintError)
                } else {
                    let why: u64 = if !armed {
                        2
                    } else if !ctx.vendor_id_verified {
                        5
                    } else {
                        6
                    };
                    a == Ok::<(Option<CommandId>, Seq<u8>), StatusIb>(
                        (Some(0x01), tlv::structure_bytes(tag, tlv::unsigned_bytes(Tag::Context(0), why))),
                    )
                }
            }
            &&& fine ==> exists|csr: Result<Vec<u8>, Status>|
                {
                    &&& #[trigger] call_ensures(H::write_icac_csr, (before.hooks.product(),), csr)
                    &&& match csr {
                        Ok(csr) => if csr@.len() <= 600 {
                            &&& after.csr_issued_to == ctx.fabric_index
                            &&& a == Ok::<(Option<CommandId>, Seq<u8>), StatusIb>(
                                (
                                    Some(0x01),
                                    tlv::structure_bytes(
                                        tag,
                                        tlv::unsigned_bytes(Tag::Context(0), 0) + tlv::octets_bytes(Tag::Context(1), csr@),
                                    ),
                                ),
                            )
                        } else {
                            a == im::refused(Status::Failure) && after.csr_issued_to == before.csr_issued_to
                        },
                        Err(status) => a == im::refused(status) && after.csr_issued_to == before.csr_issued_to,
                    }
                }
        }),
{
    assert(forall|x: Seq<u8>| #[trigger] (x + Seq::<u8>::empty()) =~= x);
}

/// `AddICAC` installs the certificate that it brings, and makes the accessing fabric the Joint Fabric's, where the fail-safe is
/// armed, none was added, it has at most 400 octets, the last signing request went to that fabric and the product says that
/// nothing is wrong with it; and otherwise installs nothing and changes nothing.
pub proof fn law_a_certificate_is_added<'a, H: JointFabricHooks>(
    before: JointFabricAdministrator<'a, H>,
    after: JointFabricAdministrator<'a, H>,
    resolved: ResolvedCommand,
    b: Seq<u8>,
    items: Seq<tlv::Element>,
    icac: Seq<u8>,
    fabric: FabricIndex,
    ctx: InteractionContext,
    tag: Tag,
    a: InvokeAnswer,
)
    requires
        JointFabricAdministrator::invokes(&before, &after, resolved, Some(b), ctx, tag, a),
        resolved.command == 0x02,
        ctx.fabric_index == Some(fabric),
        fabric.0 != 0,
        fields::decode(b, seq![Field(1, Kind::Octets, Need::Required)]) == Ok::<Seq<tlv::Element>, Status>(items),
        fields::octets(b, items, 1) == Some(icac),
    ensures
        after.csr_issued_to == before.csr_issued_to,
        after.shared@ == before.shared@,
        ({
            let held = before.shared@.fail_safe.context;
            let armed = held is Some && ctx.now.micros < held->Some_0.deadline.micros;
            let answered = |v: u64|
                a == Ok::<(Option<CommandId>, Seq<u8>), StatusIb>(
                    (Some(0x03), tlv::structure_bytes(tag, tlv::unsigned_bytes(Tag::Context(0), v))),
                );
            let kept = after.icac_added == before.icac_added && after.administrator_fabric == before.administrator_fabric;
            if !armed {
                a == im::refused(Status::FailsafeRequired) && kept && after.hooks == before.hooks
            } else if before.icac_added || icac.len() > 400 {
                a == im::refused(Status::ConstraintError) && kept && after.hooks == before.hooks
            } else if before.csr_issued_to != Some(fabric) {
                answered(1) && kept && after.hooks == before.hooks
            } else {
                exists|verdict: ICACResponseStatusEnum, installed: Result<(), Status>|
                    {
                        &&& #[trigger] finds(before, icac, fabric, verdict)
                        &&& match verdict {
                            ICACResponseStatusEnum::InvalidPublicKey => answered(1) && kept && after.hooks == before.hooks,
                            ICACResponseStatusEnum::InvalidICAC => answered(2) && kept && after.hooks == before.hooks,
                            ICACResponseStatusEnum::OK => {
                                &&& #[trigger] hears(before, after, Call::Install(icac, fabric, installed))
                                &&& match installed {
                                    Ok(_) => answered(0) && after.icac_added && after.administrator_fabric == Some(fabric),
                                    Err(status) => a == im::refused(status) && kept,
                                }
                            },
                        }
                    }
            }
        }),
{
    assert(add_schema() =~= seq![Field(1, Kind::Octets, Need::Required)]);
    let held = before.shared@.fail_safe.context;
    let said = choose|said: Said|
        {
            &&& before.says(resolved.command, Some(b), ctx, said)
            &&& (after.state(), a) == #[trigger] commanded(before.state(), resolved.command, Some(b), ctx, said, tag)
            &&& match call_of(before.state(), resolved.command, Some(b), ctx, said) {
                Some(call) => after.hooks.called(&before.hooks, call),
                None => after.hooks == before.hooks,
            }
        };
    assert((after.state(), a) == commanded(before.state(), resolved.command, Some(b), ctx, said, tag));
    let told = hears(before, after, Call::Install(icac, fabric, said.installed));
    let found = finds(before, icac, fabric, said.verdict);
}

/// The anchor role is asked for and given up: a request is answered with what the product says, the completion leaves no fabric
/// the Joint Fabric's, and where a peer says that its own cluster is, the product is told.
pub proof fn law_the_anchor_is_transferred<'a, H: JointFabricHooks>(
    before: JointFabricAdministrator<'a, H>,
    after: JointFabricAdministrator<'a, H>,
    resolved: ResolvedCommand,
    b: Seq<u8>,
    items: Seq<tlv::Element>,
    endpoint: u16,
    ctx: InteractionContext,
    tag: Tag,
    a: InvokeAnswer,
)
    requires
        JointFabricAdministrator::invokes(&before, &after, resolved, Some(b), ctx, tag, a),
        fields::decode(b, seq![Field(0, Kind::U16, Need::Required)]) == Ok::<Seq<tlv::Element>, Status>(items),
        fields::num16(items, 0) == Some(endpoint),
    ensures
        resolved.command == 0x05 ==> after.state() == before.state() && exists|t: AnchorTransfer| #[trigger]
            call_ensures(H::anchor_transfer, (before.hooks.product(),), t) && a == Ok::<(Option<CommandId>, Seq<u8>), StatusIb>(
                (
                    Some(0x06),
                    tlv::structure_bytes(
                        tag,
                        tlv::unsigned_bytes(
                            Tag::Context(0),
                            match t {
                                AnchorTransfer::Accepted => 0,
                                AnchorTransfer::Refused(TransferAnchorResponseStatusEnum::OK) => 0,
                                AnchorTransfer::Refused(
                                    TransferAnchorResponseStatusEnum::TransferAnchorStatusDatastoreBusy,
                                ) => 1,
                                AnchorTransfer::Refused(
                                    TransferAnchorResponseStatusEnum::TransferAnchorStatusNoUserConsent,
                                ) => 2,
                            },
                        ),
                    ),
                ),
            ),
        resolved.command == 0x07 ==> a == im::done() && after.administrator_fabric is None && after.csr_issued_to
            == before.csr_issued_to && after.icac_added == before.icac_added && after.shared@ == before.shared@ && hears(
            before,
            after,
            Call::Transferred,
        ),
        resolved.command == 0x08 ==> a == im::done() && after.state() == before.state() && hears(
            before,
            after,
            Call::Announced(endpoint),
        ),
{
    assert(announce_schema() =~= seq![Field(0, Kind::U16, Need::Required)]);
}

/// What a read shows: the fabric that is the Joint Fabric's, or that none is.
pub proof fn law_the_joint_fabric_is_read_as_it_is<'a, H: JointFabricHooks>(
    c: JointFabricAdministrator<'a, H>,
    resolved: Resolved,
    ctx: InteractionContext,
    tag: Tag,
    a: ReadAnswer,
)
    requires
        c.answers(resolved, ctx, tag, a),
    ensures
        resolved.attribute == 0x0000 ==> match c.administrator_fabric {
            Some(f) => a is Ok && tlv::shows_number(a->Ok_0, 0, tag, f.0 as u64),
            None => a == Ok::<Seq<u8>, Status>(tlv::null_bytes(tag)),
        },
        resolved.attribute != 0x0000 ==> a == Err::<Seq<u8>, Status>(Status::UnsupportedAttribute),
{
    if let Some(f) = c.administrator_fabric {
        tlv::lemma_shows_number(tag, f.0 as u64);
    }
}

/// How the cluster describes itself follows from the features and from what the product chooses: each attribute, command and event
/// is there exactly where they say so, with who may read, write or invoke it, and nothing else is.
pub proof fn law_the_cluster_describes_itself(features: u32, o: conformance::OptionalModel, c: crate::dm::ClusterModel)
    requires
        conformance::conform(defined(), features, o) == Ok::<crate::dm::ClusterModel, ErrorCode>(c),
    ensures
        c.id == 0x0753,
        c.revision == 1,
        c.feature_map == features,
        features & !0u32 == 0,
        c.attributes.contains(conformance::shown_attribute(0x0000, None)) == (true),
        c.accepted_commands.contains(conformance::shown_command(0x00, Privilege::Administer, false, false, Some(0x01u32))) == (true),
        c.accepted_commands.contains(conformance::shown_command(0x02, Privilege::Administer, false, false, Some(0x03u32))) == (true),
        c.accepted_commands.contains(conformance::shown_command(0x04, Privilege::Administer, false, false, None)) == (true),
        c.accepted_commands.contains(conformance::shown_command(0x05, Privilege::Administer, false, false, Some(0x06u32))) == (true),
        c.accepted_commands.contains(conformance::shown_command(0x07, Privilege::Administer, false, false, None)) == (true),
        c.accepted_commands.contains(conformance::shown_command(0x08, Privilege::Administer, false, false, None)) == (true),
        c.attributes.len() <= 1,
        c.accepted_commands.len() <= 6,
        c.events.len() <= 0,
{
    let d = defined();
    assert(conformance::told_apart(d.attributes));
    assert(conformance::told_apart(d.commands));
    assert(conformance::told_apart(d.events));
    conformance::lemma_described(d.attributes, features, o.attributes, conformance::shown_attribute(0x0000, None), 0);
    conformance::lemma_described(d.commands, features, o.commands, conformance::shown_command(0x00, Privilege::Administer, false, false, Some(0x01u32)), 0);
    conformance::lemma_described(d.commands, features, o.commands, conformance::shown_command(0x02, Privilege::Administer, false, false, Some(0x03u32)), 1);
    conformance::lemma_described(d.commands, features, o.commands, conformance::shown_command(0x04, Privilege::Administer, false, false, None), 2);
    conformance::lemma_described(d.commands, features, o.commands, conformance::shown_command(0x05, Privilege::Administer, false, false, Some(0x06u32)), 3);
    conformance::lemma_described(d.commands, features, o.commands, conformance::shown_command(0x07, Privilege::Administer, false, false, None), 4);
    conformance::lemma_described(d.commands, features, o.commands, conformance::shown_command(0x08, Privilege::Administer, false, false, None), 5);
    conformance::lemma_at_most(d.attributes, features, o.attributes, d.attributes.len() as int);
    conformance::lemma_at_most(d.commands, features, o.commands, d.commands.len() as int);
    conformance::lemma_at_most(d.events, features, o.events, d.events.len() as int);
}

} // verus!
