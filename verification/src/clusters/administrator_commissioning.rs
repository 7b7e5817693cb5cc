//! Administrator Commissioning, cluster `0x003C`: how an administrator lets another one in.
//!
//! Only one window is open at a time, and none opens while a fail-safe is armed. Revoking ends what
//! a window let in also where the window is closed already.

use vstd::prelude::*;

use crate::clusters::dispatch::Cluster;
use crate::commissioning;
use crate::commissioning::{
    Cleanup, EphemeralVerifier, FailSafe, OpenWindow, Shared, SharedModel, VerifierModel, WindowModel, WindowStatus,
    PAKE_VERIFIER_LEN,
};
use crate::dm;
use crate::dm::{
    Access, AccessQualities, AttributeDescriptor, AttributeQualities, ClusterDescriptor, ClusterModel, CommandDescriptor,
    Privilege,
};
use crate::im;
use crate::im::{
    AttributeId, ClusterHandler, ClusterId, CommandId, InteractionContext, InvokeAnswer, Lifecycle, ReadAnswer, Reply, Resolved,
    ResolvedCommand, Status, StatusIb, WriteOp,
};
use crate::msg::{FabricIndex, VendorId};
use crate::platform::{Duration, Instant};
use crate::tlv;
use crate::tlv::Tag;
use crate::walk;
use crate::walk::{Manner, Slot, Walked, Want};

verus! {

/// The cluster.
pub const ID: ClusterId = 0x003C;

/// Its revision.
pub const REVISION: u16 = 1;

/// `BC`: a window with the device's passcode.
pub const FEATURE_BASIC: u32 = 0x01;

/// `WindowStatus`.
pub const WINDOW_STATUS: AttributeId = 0x0000;

/// `AdminFabricIndex`.
pub const ADMIN_FABRIC_INDEX: AttributeId = 0x0001;

/// `AdminVendorId`.
pub const ADMIN_VENDOR_ID: AttributeId = 0x0002;

/// `OpenCommissioningWindow`.
pub const OPEN_COMMISSIONING_WINDOW: CommandId = 0x00;

/// `OpenBasicCommissioningWindow`.
pub const OPEN_BASIC_COMMISSIONING_WINDOW: CommandId = 0x01;

/// `RevokeCommissioning`.
pub const REVOKE_COMMISSIONING: CommandId = 0x02;

/// The shortest time that a window can be open, in seconds.
pub const COMMISSIONING_TIMEOUT_MIN_SECONDS: u16 = 180;

/// The longest time that a window can be open, in seconds.
pub const COMMISSIONING_TIMEOUT_MAX_SECONDS: u16 = 900;

/// The cluster's own ways to fail.
#[derive(Debug, Clone, Copy, PartialEq, Eq, Structural)]
pub enum AdminStatus {
    /// Another commissioning is in progress.
    Busy,
    /// What the passcode verifier was made from or with is not valid.
    PakeParameterError,
    /// No window is open.
    WindowNotOpen,
}

/// The number of a failure.
pub open spec fn admin_value(s: AdminStatus) -> u8 {
    match s {
        AdminStatus::Busy => 0x02,
        AdminStatus::PakeParameterError => 0x03,
        AdminStatus::WindowNotOpen => 0x04,
    }
}

/// A failure with its number.
pub open spec fn admin_failure(s: AdminStatus) -> StatusIb {
    im::failed(admin_value(s))
}

impl AdminStatus {
    /// Its number.
    pub fn value(self) -> (v: u8)
        ensures
            v == admin_value(self),
    {
        match self {
            AdminStatus::Busy => 0x02,
            AdminStatus::PakeParameterError => 0x03,
            AdminStatus::WindowNotOpen => 0x04,
        }
    }

    /// A failure with its number.
    pub fn as_status(self) -> (s: StatusIb)
        ensures
            s == admin_failure(self),
    {
        StatusIb::cluster_failure(self.value())
    }
}

/// A command for administrators, in a timed interaction.
pub open spec fn timed_command(id: CommandId) -> CommandDescriptor {
    CommandDescriptor {
        id,
        access: Access {
            qualities: AccessQualities { fabric_scoped: false, fabric_sensitive: false, timed: true },
            ..Access::invokes(Privilege::Administer)
        },
        response: None,
    }
}

fn timed_admin(id: CommandId) -> (d: CommandDescriptor)
    ensures
        d == timed_command(id),
{
    CommandDescriptor::new(id).with_access(Access::invoke(Privilege::Administer).with_qualities(AccessQualities::timed()))
}

/// How the cluster describes itself, with or without windows for the device's passcode.
pub open spec fn description(basic: bool) -> ClusterModel {
    ClusterModel {
        id: ID,
        revision: REVISION,
        feature_map: if basic { FEATURE_BASIC } else { 0 },
        attributes: seq![
            dm::readable(WINDOW_STATUS, dm::plain_value()),
            dm::readable(ADMIN_FABRIC_INDEX, dm::nullable_value()),
            dm::readable(ADMIN_VENDOR_ID, dm::nullable_value()),
        ],
        accepted_commands: if basic {
            seq![
                timed_command(OPEN_COMMISSIONING_WINDOW),
                timed_command(OPEN_BASIC_COMMISSIONING_WINDOW),
                timed_command(REVOKE_COMMISSIONING),
            ]
        } else {
            seq![timed_command(OPEN_COMMISSIONING_WINDOW), timed_command(REVOKE_COMMISSIONING)]
        },
        generated_commands: Seq::empty(),
        events: Seq::empty(),
    }
}

fn attributes() -> (a: Vec<AttributeDescriptor>)
    ensures
        a@ == description(true).attributes,
{
    let a: Vec<AttributeDescriptor> = vec![
        AttributeDescriptor::read_only(WINDOW_STATUS),
        AttributeDescriptor::read_only(ADMIN_FABRIC_INDEX).with_qualities(AttributeQualities::nullable()),
        AttributeDescriptor::read_only(ADMIN_VENDOR_ID).with_qualities(AttributeQualities::nullable()),
    ];
    proof {
        assert(a@ =~= description(true).attributes);
    }
    a
}

/// How the cluster describes itself where windows have passcodes of their own alone.
pub fn cluster() -> (d: ClusterDescriptor)
    ensures
        d@ == description(false),
{
    let d: ClusterDescriptor = ClusterDescriptor {
        id: ID,
        revision: REVISION,
        feature_map: 0,
        attributes: attributes(),
        accepted_commands: vec![timed_admin(OPEN_COMMISSIONING_WINDOW), timed_admin(REVOKE_COMMISSIONING)],
        generated_commands: Vec::new(),
        events: Vec::new(),
    };
    proof {
        assert(d@.accepted_commands =~= description(false).accepted_commands);
    }
    d
}

/// How the cluster describes itself where there are windows for the device's passcode too.
pub fn cluster_with_basic() -> (d: ClusterDescriptor)
    ensures
        d@ == description(true),
{
    let d: ClusterDescriptor = ClusterDescriptor {
        id: ID,
        revision: REVISION,
        feature_map: FEATURE_BASIC,
        attributes: attributes(),
        accepted_commands: vec![
            timed_admin(OPEN_COMMISSIONING_WINDOW),
            timed_admin(OPEN_BASIC_COMMISSIONING_WINDOW),
            timed_admin(REVOKE_COMMISSIONING),
        ],
        generated_commands: Vec::new(),
        events: Vec::new(),
    };
    proof {
        assert(d@.accepted_commands =~= description(true).accepted_commands);
    }
    d
}

/// What revoking leaves to be done.
#[derive(Debug, Clone, Copy, PartialEq, Eq, Structural)]
pub struct Revoked {
    /// Sessions over the passcode are to be closed: always.
    pub close_pase_sessions: bool,
    /// What is to be undone where such a session held the fail-safe.
    pub fail_safe_cleanup: Option<Cleanup>,
    /// The window is not to be announced any more, where one was open.
    pub stop_advertising: bool,
}

/// The fields of `OpenCommissioningWindow`.
#[derive(Debug, Clone, Copy)]
pub struct OpenWindowRequest<'a> {
    /// How long the window is to be open, in seconds.
    pub timeout_seconds: u16,
    /// The passcode verifier.
    pub verifier: &'a [u8],
    /// What it is announced under.
    pub discriminator: u16,
    /// The iterations that the verifier was made with.
    pub iterations: u32,
    /// The salt that the verifier was made with.
    pub salt: &'a [u8],
}

/// The fields of `OpenCommissioningWindow`.
pub struct RequestModel {
    /// How long the window is to be open, in seconds.
    pub timeout_seconds: u16,
    /// The passcode verifier.
    pub verifier: Seq<u8>,
    /// What it is announced under.
    pub discriminator: u16,
    /// The iterations that the verifier was made with.
    pub iterations: u32,
    /// The salt that the verifier was made with.
    pub salt: Seq<u8>,
}

impl<'a> View for OpenWindowRequest<'a> {
    type V = RequestModel;

    open spec fn view(&self) -> RequestModel {
        RequestModel {
            timeout_seconds: self.timeout_seconds,
            verifier: self.verifier@,
            discriminator: self.discriminator,
            iterations: self.iterations,
            salt: self.salt@,
        }
    }
}

/// Whether a window may be opened: none is open, and no fail-safe is armed.
pub open spec fn may_open(m: SharedModel, now: Instant) -> bool {
    commissioning::open_at(m.window, now) is None && commissioning::held(m.fail_safe, now) is None
}

/// What opening a window comes to once nothing else stands against it.
pub open spec fn installed(
    m: SharedModel,
    status: WindowStatus,
    timeout: u16,
    discriminator: u16,
    ephemeral: Option<VerifierModel>,
    fabric: Option<FabricIndex>,
    vendor: Option<VendorId>,
    now: Instant,
) -> (SharedModel, Option<StatusIb>) {
    if !(COMMISSIONING_TIMEOUT_MIN_SECONDS <= timeout <= COMMISSIONING_TIMEOUT_MAX_SECONDS) {
        (m, Some(im::plain(Status::InvalidCommand)))
    } else if discriminator > 0x0FFF {
        (m, Some(im::plain(Status::ConstraintError)))
    } else {
        (
            SharedModel {
                window: Some(
                    WindowModel {
                        status,
                        expires_at: commissioning::seconds_after(now, timeout as int),
                        admin_fabric: fabric,
                        admin_vendor: if fabric is Some { vendor } else { None },
                        discriminator,
                        ephemeral,
                    },
                ),
                ..m
            },
            None,
        )
    }
}

/// What `OpenCommissioningWindow` comes to, given whether the verifier is one and which vendor the
/// accessing fabric is of.
pub open spec fn opened(
    m: SharedModel,
    r: RequestModel,
    verifier_valid: bool,
    vendor: Option<VendorId>,
    fabric: Option<FabricIndex>,
    now: Instant,
) -> (SharedModel, Option<StatusIb>) {
    if !may_open(m, now) {
        (m, Some(admin_failure(AdminStatus::Busy)))
    } else if r.verifier.len() != PAKE_VERIFIER_LEN || !verifier_valid || !commissioning::parameters_valid(
        r.iterations,
        r.salt,
    ) {
        (m, Some(admin_failure(AdminStatus::PakeParameterError)))
    } else {
        installed(
            m,
            WindowStatus::EnhancedOpen,
            r.timeout_seconds,
            r.discriminator,
            Some(VerifierModel { verifier: r.verifier, iterations: r.iterations, salt: r.salt }),
            fabric,
            vendor,
            now,
        )
    }
}

/// What `OpenBasicCommissioningWindow` comes to, given which vendor the accessing fabric is of.
pub open spec fn basic_opened(
    m: SharedModel,
    supported: bool,
    timeout: u16,
    discriminator: u16,
    vendor: Option<VendorId>,
    fabric: Option<FabricIndex>,
    now: Instant,
) -> (SharedModel, Option<StatusIb>) {
    if !supported {
        (m, Some(im::plain(Status::UnsupportedCommand)))
    } else if !may_open(m, now) {
        (m, Some(admin_failure(AdminStatus::Busy)))
    } else {
        installed(m, WindowStatus::BasicOpen, timeout, discriminator, None, fabric, vendor, now)
    }
}

/// Whether a session without a fabric holds the fail-safe.
pub open spec fn pase_held(f: FailSafe, now: Instant) -> bool {
    commissioning::held(f, now) matches Some(a) && a.fabric_index is None
}

/// What `RevokeCommissioning` comes to.
pub open spec fn revoked(m: SharedModel, now: Instant) -> (SharedModel, Revoked, Option<StatusIb>) {
    let was_open = commissioning::open_at(m.window, now) is Some;
    let (fail_safe, cleanup) = if pase_held(m.fail_safe, now) {
        commissioning::ended(m.fail_safe)
    } else {
        (m.fail_safe, None)
    };
    (
        SharedModel { window: None, fail_safe },
        Revoked { close_pase_sessions: true, fail_safe_cleanup: cleanup, stop_advertising: was_open },
        if was_open { None } else { Some(admin_failure(AdminStatus::WindowNotOpen)) },
    )
}

/// What went wrong, where something did.
pub open spec fn refusal(r: Result<(), StatusIb>) -> Option<StatusIb> {
    match r {
        Ok(_) => None,
        Err(status) => Some(status),
    }
}

fn can_open(s: &Shared, now: Instant) -> (r: bool)
    ensures
        r == may_open(s@, now),
{
    s.window.open(now).is_none() && !s.fail_safe.is_armed(now)
}

fn install(
    s: &mut Shared,
    status: WindowStatus,
    timeout: u16,
    discriminator: u16,
    ephemeral: Option<EphemeralVerifier>,
    fabric: Option<FabricIndex>,
    vendor: Option<VendorId>,
    now: Instant,
) -> (r: Result<(), StatusIb>)
    ensures
        (final(s)@, refusal(r)) == installed(
            old(s)@,
            status,
            timeout,
            discriminator,
            match ephemeral {
                Some(e) => Some(e@),
                None => None,
            },
            fabric,
            vendor,
            now,
        ),
{
    if timeout < COMMISSIONING_TIMEOUT_MIN_SECONDS || timeout > COMMISSIONING_TIMEOUT_MAX_SECONDS {
        return Err(StatusIb::new(Status::InvalidCommand));
    }
    if discriminator > 0x0FFF {
        return Err(StatusIb::new(Status::ConstraintError));
    }
    let expires_at: Instant = now.saturating_add(Duration::from_secs(timeout as u32));
    let admin_vendor: Option<VendorId> = if fabric.is_some() {
        vendor
    } else {
        None
    };
    s.window.install(OpenWindow { status, expires_at, admin_fabric: fabric, admin_vendor, discriminator, ephemeral });
    Ok(())
}

/// Opens a window with a passcode of its own, given whether the verifier is one and which vendor
/// the accessing fabric is of.
pub fn open_enhanced(
    s: &mut Shared,
    request: &OpenWindowRequest<'_>,
    verifier_valid: bool,
    vendor: Option<VendorId>,
    fabric: Option<FabricIndex>,
    now: Instant,
) -> (r: Result<(), StatusIb>)
    ensures
        (final(s)@, refusal(r)) == opened(old(s)@, request@, verifier_valid, vendor, fabric, now),
{
    if !can_open(s, now) {
        return Err(AdminStatus::Busy.as_status());
    }
    if request.verifier.len() != PAKE_VERIFIER_LEN || !verifier_valid || !commissioning::parameters_are_valid(
        request.iterations,
        request.salt,
    ) {
        return Err(AdminStatus::PakeParameterError.as_status());
    }
    let mut verifier: Vec<u8> = Vec::new();
    tlv::put_bytes(&mut verifier, request.verifier);
    let mut salt: Vec<u8> = Vec::new();
    tlv::put_bytes(&mut salt, request.salt);
    proof {
        assert(verifier@ =~= request.verifier@);
        assert(salt@ =~= request.salt@);
    }
    install(
        s,
        WindowStatus::EnhancedOpen,
        request.timeout_seconds,
        request.discriminator,
        Some(EphemeralVerifier { verifier, iterations: request.iterations, salt }),
        fabric,
        vendor,
        now,
    )
}

/// Opens a window with the device's passcode, given which vendor the accessing fabric is of.
pub fn open_basic(
    s: &mut Shared,
    supported: bool,
    timeout: u16,
    discriminator: u16,
    vendor: Option<VendorId>,
    fabric: Option<FabricIndex>,
    now: Instant,
) -> (r: Result<(), StatusIb>)
    ensures
        (final(s)@, refusal(r)) == basic_opened(old(s)@, supported, timeout, discriminator, vendor, fabric, now),
{
    if !supported {
        return Err(StatusIb::new(Status::UnsupportedCommand));
    }
    if !can_open(s, now) {
        return Err(AdminStatus::Busy.as_status());
    }
    install(s, WindowStatus::BasicOpen, timeout, discriminator, None, fabric, vendor, now)
}

/// Closes the window, and ends a fail-safe that a session without a fabric holds.
pub fn revoke(s: &mut Shared, now: Instant) -> (r: (Revoked, Result<(), StatusIb>))
    ensures
        (final(s)@, r.0, refusal(r.1)) == revoked(old(s)@, now),
{
    let was_open: bool = s.window.open(now).is_some();
    s.window.close();
    let pase_held: bool = match s.fail_safe.armed(now) {
        Some(a) => a.fabric_index.is_none(),
        None => false,
    };
    let cleanup: Option<Cleanup> = if pase_held {
        s.fail_safe.end()
    } else {
        None
    };
    let work: Revoked = Revoked { close_pase_sessions: true, fail_safe_cleanup: cleanup, stop_advertising: was_open };
    if was_open {
        (work, Ok(()))
    } else {
        (work, Err(AdminStatus::WindowNotOpen.as_status()))
    }
}

/// The fields of `OpenCommissioningWindow`, one by one.
pub open spec fn open_slots() -> Seq<Slot> {
    seq![
        Slot(0, Want::Unsigned(0xFFFF)),
        Slot(1, Want::Octets(0, usize::MAX)),
        Slot(2, Want::Unsigned(0xFFFF)),
        Slot(3, Want::Unsigned(0xFFFF_FFFF)),
        Slot(4, Want::Octets(0, usize::MAX)),
    ]
}

/// The fields of `OpenBasicCommissioningWindow`, one by one.
pub open spec fn basic_slots() -> Seq<Slot> {
    seq![Slot(0, Want::Unsigned(0xFFFF))]
}

/// What `OpenCommissioningWindow` asks for, or what is wrong with it: a verifier of another length
/// is told before a field that is missing.
pub open spec fn decoded(fields: Option<Seq<u8>>) -> Result<RequestModel, StatusIb> {
    match fields {
        None => Err(im::plain(Status::InvalidCommand)),
        Some(b) => match walk::walked(b, open_slots(), walk::strict()) {
            Err(status) => Err(im::plain(status)),
            Ok(items) => match walk::octets(b, items, 1) {
                None => Err(im::plain(Status::InvalidCommand)),
                Some(verifier) => if verifier.len() != PAKE_VERIFIER_LEN {
                    Err(admin_failure(AdminStatus::PakeParameterError))
                } else {
                    match (walk::num(items, 0), walk::num(items, 2), walk::num(items, 3), walk::octets(b, items, 4)) {
                        (Some(timeout), Some(discriminator), Some(iterations), Some(salt)) => Ok(
                            RequestModel {
                                timeout_seconds: timeout as u16,
                                verifier,
                                discriminator: discriminator as u16,
                                iterations: iterations as u32,
                                salt,
                            },
                        ),
                        _ => Err(im::plain(Status::InvalidCommand)),
                    }
                },
            },
        },
    }
}

/// How long `OpenBasicCommissioningWindow` asks for, or what is wrong with it.
pub open spec fn basic_decoded(fields: Option<Seq<u8>>) -> Result<u16, StatusIb> {
    match fields {
        None => Err(im::plain(Status::InvalidCommand)),
        Some(b) => match walk::walked(b, basic_slots(), walk::strict()) {
            Err(status) => Err(im::plain(status)),
            Ok(items) => match walk::num(items, 0) {
                None => Err(im::plain(Status::InvalidCommand)),
                Some(timeout) => Ok(timeout as u16),
            },
        },
    }
}

fn decode_open_window<'a>(fields: Option<&'a [u8]>) -> (r: Result<OpenWindowRequest<'a>, StatusIb>)
    ensures
        match r {
            Ok(request) => decoded(im::octets(fields)) == Ok::<RequestModel, StatusIb>(request@),
            Err(status) => decoded(im::octets(fields)) == Err::<RequestModel, StatusIb>(status),
        },
{
    let data: &'a [u8] = match fields {
        None => return Err(StatusIb::new(Status::InvalidCommand)),
        Some(data) => data,
    };
    let slots: Vec<Slot> = vec![
        Slot(0, Want::Unsigned(0xFFFF)),
        Slot(1, Want::Octets(0, usize::MAX)),
        Slot(2, Want::Unsigned(0xFFFF)),
        Slot(3, Want::Unsigned(0xFFFF_FFFF)),
        Slot(4, Want::Octets(0, usize::MAX)),
    ];
    proof {
        assert(slots@ =~= open_slots());
    }
    let walked: Walked<'a> = match walk::walk(data, &slots, Manner::strict()) {
        Err(status) => return Err(StatusIb::new(status)),
        Ok(walked) => walked,
    };
    let verifier: &'a [u8] = match walked.octets(1) {
        None => return Err(StatusIb::new(Status::InvalidCommand)),
        Some(verifier) => verifier,
    };
    if verifier.len() != PAKE_VERIFIER_LEN {
        return Err(AdminStatus::PakeParameterError.as_status());
    }
    match (walked.num(0), walked.num(2), walked.num(3), walked.octets(4)) {
        (Some(timeout), Some(discriminator), Some(iterations), Some(salt)) => Ok(
            OpenWindowRequest {
                timeout_seconds: timeout as u16,
                verifier,
                discriminator: discriminator as u16,
                iterations: iterations as u32,
                salt,
            },
        ),
        _ => Err(StatusIb::new(Status::InvalidCommand)),
    }
}

fn decode_basic_window(fields: Option<&[u8]>) -> (r: Result<u16, StatusIb>)
    ensures
        r == basic_decoded(im::octets(fields)),
{
    let data: &[u8] = match fields {
        None => return Err(StatusIb::new(Status::InvalidCommand)),
        Some(data) => data,
    };
    let slots: Vec<Slot> = vec![Slot(0, Want::Unsigned(0xFFFF))];
    proof {
        assert(slots@ =~= basic_slots());
    }
    match walk::walk(data, &slots, Manner::strict()) {
        Err(status) => Err(StatusIb::new(status)),
        Ok(walked) => match walked.num(0) {
            None => Err(StatusIb::new(Status::InvalidCommand)),
            Some(timeout) => Ok(timeout as u16),
        },
    }
}

/// What the node knows that the cluster does not.
pub trait AdministratorHooks {
    /// The vendor of a fabric, where it is known.
    fn vendor_of_fabric(&self, fabric: FabricIndex) -> Option<VendorId>;

    /// Whether octets are a passcode verifier: a scalar and a point on the curve.
    fn is_verifier(&self, verifier: &[u8]) -> bool;
}

/// The Administrator Commissioning cluster.
pub struct AdministratorCommissioning<'a, H: AdministratorHooks> {
    /// The window and the fail-safe.
    pub shared: Shared,
    /// Whether there are windows for the device's passcode.
    pub basic_supported: bool,
    /// The discriminator that is printed on the device, under which its windows for the device's
    /// passcode are advertised.
    pub discriminator: u16,
    /// What the node knows.
    pub hooks: &'a H,
}

/// What a command comes to, given whether the verifier is one and which vendor the accessing fabric
/// is of.
pub open spec fn commanded(
    m: SharedModel,
    basic: bool,
    discriminator: u16,
    command: CommandId,
    fields: Option<Seq<u8>>,
    ctx: InteractionContext,
    verifier_valid: bool,
    vendor: Option<VendorId>,
) -> (SharedModel, InvokeAnswer) {
    if command == OPEN_COMMISSIONING_WINDOW {
        match decoded(fields) {
            Err(status) => (m, Err(status)),
            Ok(r) => {
                let (after, refused) = opened(m, r, verifier_valid, vendor, ctx.fabric_index, ctx.now);
                (after, answer_of(refused))
            },
        }
    } else if command == OPEN_BASIC_COMMISSIONING_WINDOW {
        match basic_decoded(fields) {
            Err(status) => (m, Err(status)),
            Ok(timeout) => {
                let (after, refused) = basic_opened(m, basic, timeout, discriminator, vendor, ctx.fabric_index, ctx.now);
                (after, answer_of(refused))
            },
        }
    } else if command == REVOKE_COMMISSIONING {
        let (after, _, refused) = revoked(m, ctx.now);
        (after, answer_of(refused))
    } else {
        (m, im::refused(Status::UnsupportedCommand))
    }
}

/// Success, or a refusal.
pub open spec fn answer_of(refused: Option<StatusIb>) -> InvokeAnswer {
    match refused {
        None => im::done(),
        Some(status) => Err(status),
    }
}

fn answer_to(r: Result<(), StatusIb>) -> (a: Result<Reply, StatusIb>)
    ensures
        im::invoke_answer(a) == answer_of(refusal(r)),
{
    match r {
        Ok(_) => im::no_response(),
        Err(status) => Err(status),
    }
}

/// What an attribute is answered with.
pub open spec fn attribute_answer(m: SharedModel, id: AttributeId, now: Instant, tag: Tag) -> ReadAnswer {
    let open = commissioning::open_at(m.window, now);
    if id == WINDOW_STATUS {
        Ok(
            tlv::unsigned_bytes(
                tag,
                commissioning::window_value(
                    match open {
                        Some(w) => w.status,
                        None => WindowStatus::NotOpen,
                    },
                ) as u64,
            ),
        )
    } else if id == ADMIN_FABRIC_INDEX {
        Ok(
            tlv::nullable_bytes(
                tag,
                match open {
                    Some(w) => match w.admin_fabric {
                        Some(f) => Some(f.0 as u64),
                        None => None,
                    },
                    None => None,
                },
            ),
        )
    } else if id == ADMIN_VENDOR_ID {
        Ok(
            tlv::nullable_bytes(
                tag,
                match open {
                    Some(w) => match w.admin_vendor {
                        Some(v) => Some(v.0 as u64),
                        None => None,
                    },
                    None => None,
                },
            ),
        )
    } else {
        Err(Status::UnsupportedAttribute)
    }
}

/// Answers a read from a window.
pub fn encode_attribute(shared: &Shared, attribute: AttributeId, now: Instant, tag: Tag) -> (a: Result<Vec<u8>, Status>)
    ensures
        im::read_answer(a) == attribute_answer(shared@, attribute, now, tag),
{
    let mut out: Vec<u8> = Vec::new();
    match attribute {
        WINDOW_STATUS => {
            tlv::put_unsigned(&mut out, tag, shared.window.status(now).value() as u64);
        },
        ADMIN_FABRIC_INDEX => {
            let v: Option<u64> = match shared.window.open(now) {
                Some(w) => match w.admin_fabric {
                    Some(f) => Some(f.0 as u64),
                    None => None,
                },
                None => None,
            };
            tlv::put_nullable(&mut out, tag, v);
        },
        ADMIN_VENDOR_ID => {
            let v: Option<u64> = match shared.window.open(now) {
                Some(w) => match w.admin_vendor {
                    Some(v) => Some(v.0 as u64),
                    None => None,
                },
                None => None,
            };
            tlv::put_nullable(&mut out, tag, v);
        },
        _ => return Err(Status::UnsupportedAttribute),
    }
    proof {
        let expected = attribute_answer(shared@, attribute, now, tag);
        assert(out@ =~= expected->Ok_0);
    }
    Ok(out)
}

impl<'a, H: AdministratorHooks> AdministratorCommissioning<'a, H> {
    /// A cluster whose windows have passcodes of their own alone.
    pub fn new(shared: Shared, hooks: &'a H) -> (c: Self)
        ensures
            c == (AdministratorCommissioning { shared, basic_supported: false, discriminator: 0, hooks }),
    {
        AdministratorCommissioning { shared, basic_supported: false, discriminator: 0, hooks }
    }

    /// The same with windows for the device's passcode.
    pub fn with_basic(self) -> (c: Self)
        ensures
            c == (AdministratorCommissioning { basic_supported: true, ..self }),
    {
        AdministratorCommissioning { basic_supported: true, ..self }
    }

    /// The same with the discriminator that is printed on the device.
    pub fn with_discriminator(self, discriminator: u16) -> (c: Self)
        ensures
            c == (AdministratorCommissioning { discriminator, ..self }),
    {
        AdministratorCommissioning { discriminator, ..self }
    }

    /// How the cluster describes itself.
    pub fn descriptor(&self) -> (d: ClusterDescriptor)
        ensures
            d@ == description(self.basic_supported),
    {
        if self.basic_supported {
            cluster_with_basic()
        } else {
            cluster()
        }
    }

    /// Whether the node, asked for the vendor of the accessing fabric, may say this.
    pub open spec fn knows(&self, fabric: Option<FabricIndex>, vendor: Option<VendorId>) -> bool {
        match fabric {
            Some(fabric) => call_ensures(H::vendor_of_fabric, (self.hooks, fabric), vendor),
            None => vendor is None,
        }
    }

    /// Whether the node, asked whether octets are a passcode verifier, may say this.
    pub open spec fn judges(&self, verifier: Seq<u8>, valid: bool) -> bool {
        exists|v: &[u8]| v@ == verifier && #[trigger] call_ensures(H::is_verifier, (self.hooks, v), valid)
    }

    /// Whether the node, asked what a command needs to know, may say this.
    pub open spec fn says(
        &self,
        command: CommandId,
        fields: Option<Seq<u8>>,
        ctx: InteractionContext,
        valid: bool,
        vendor: Option<VendorId>,
    ) -> bool {
        if command == OPEN_COMMISSIONING_WINDOW {
            decoded(fields) matches Ok(r) ==> self.judges(r.verifier, valid) && self.knows(ctx.fabric_index, vendor)
        } else {
            command == OPEN_BASIC_COMMISSIONING_WINDOW && basic_decoded(fields) is Ok ==> self.knows(
                ctx.fabric_index,
                vendor,
            )
        }
    }

    fn vendor(&self, fabric: Option<FabricIndex>) -> (vendor: Option<VendorId>)
        ensures
            self.knows(fabric, vendor),
    {
        match fabric {
            Some(fabric) => self.hooks.vendor_of_fabric(fabric),
            None => None,
        }
    }

    /// `OpenCommissioningWindow`.
    pub fn open_commissioning_window(&mut self, request: &OpenWindowRequest<'_>, ctx: &InteractionContext) -> (r: Result<
        (),
        StatusIb,
    >)
        ensures
            final(self).hooks == old(self).hooks,
            final(self).basic_supported == old(self).basic_supported,
            final(self).discriminator == old(self).discriminator,
            exists|valid: bool, vendor: Option<VendorId>|
                old(self).judges(request.verifier@, valid) && old(self).knows(ctx.fabric_index, vendor) && (
                    final(self).shared@,
                    refusal(r),
                ) == #[trigger] opened(
                    old(self).shared@,
                    request@,
                    valid,
                    vendor,
                    ctx.fabric_index,
                    ctx.now,
                ),
    {
        let valid: bool = self.hooks.is_verifier(request.verifier);
        let vendor: Option<VendorId> = self.vendor(ctx.fabric_index);
        open_enhanced(&mut self.shared, request, valid, vendor, ctx.fabric_index, ctx.now)
    }

    /// `OpenBasicCommissioningWindow`.
    pub fn open_basic_commissioning_window(&mut self, timeout_seconds: u16, discriminator: u16, ctx: &InteractionContext) -> (r:
        Result<(), StatusIb>)
        ensures
            final(self).hooks == old(self).hooks,
            final(self).basic_supported == old(self).basic_supported,
            final(self).discriminator == old(self).discriminator,
            exists|vendor: Option<VendorId>|
                old(self).knows(ctx.fabric_index, vendor) && (final(self).shared@, refusal(r)) == #[trigger] basic_opened(
                    old(self).shared@,
                    old(self).basic_supported,
                    timeout_seconds,
                    discriminator,
                    vendor,
                    ctx.fabric_index,
                    ctx.now,
                ),
    {
        let vendor: Option<VendorId> = self.vendor(ctx.fabric_index);
        open_basic(
            &mut self.shared,
            self.basic_supported,
            timeout_seconds,
            discriminator,
            vendor,
            ctx.fabric_index,
            ctx.now,
        )
    }

    /// `RevokeCommissioning`.
    pub fn revoke_commissioning(&mut self, ctx: &InteractionContext) -> (r: (Revoked, Result<(), StatusIb>))
        ensures
            final(self).hooks == old(self).hooks,
            final(self).basic_supported == old(self).basic_supported,
            final(self).discriminator == old(self).discriminator,
            (final(self).shared@, r.0, refusal(r.1)) == revoked(old(self).shared@, ctx.now),
    {
        revoke(&mut self.shared, ctx.now)
    }
}

impl<'a, H: AdministratorHooks> Cluster for AdministratorCommissioning<'a, H> {
    const ID: ClusterId = ID;
}

impl<'a, H: AdministratorHooks> ClusterHandler for AdministratorCommissioning<'a, H> {
    open spec fn answers(&self, resolved: Resolved, ctx: InteractionContext, tag: Tag, a: ReadAnswer) -> bool {
        a == attribute_answer(self.shared@, resolved.attribute, ctx.now, tag)
    }

    open spec fn writes(
        before: &Self,
        after: &Self,
        resolved: Resolved,
        data: Seq<u8>,
        op: WriteOp,
        ctx: InteractionContext,
        r: Result<(), Status>,
    ) -> bool {
        *after == *before && r == Err::<(), Status>(Status::UnsupportedWrite)
    }

    open spec fn invokes(
        before: &Self,
        after: &Self,
        resolved: ResolvedCommand,
        fields: Option<Seq<u8>>,
        ctx: InteractionContext,
        tag: Tag,
        a: InvokeAnswer,
    ) -> bool {
        &&& after.hooks == before.hooks
        &&& after.basic_supported == before.basic_supported
        &&& after.discriminator == before.discriminator
        &&& exists|valid: bool, vendor: Option<VendorId>|
            before.says(resolved.command, fields, ctx, valid, vendor) && (after.shared@, a) == #[trigger] commanded(
                before.shared@,
                before.basic_supported,
                before.discriminator,
                resolved.command,
                fields,
                ctx,
                valid,
                vendor,
            )
    }

    open spec fn outlives(before: &Self, after: &Self, event: Lifecycle) -> bool {
        *after == *before
    }

    open spec fn unfit(&self, resolved: ResolvedCommand) -> Status {
        Status::Failure
    }

    fn answer(&self, resolved: &Resolved, ctx: &InteractionContext, tag: Tag) -> (a: Result<Vec<u8>, Status>) {
        encode_attribute(&self.shared, resolved.attribute, ctx.now, tag)
    }

    fn write(&mut self, resolved: &Resolved, data: &[u8], op: WriteOp, ctx: &InteractionContext) -> (r: Result<(), Status>) {
        Err(Status::UnsupportedWrite)
    }

    fn perform(
        &mut self,
        resolved: &ResolvedCommand,
        fields: Option<&[u8]>,
        ctx: &InteractionContext,
        tag: Tag,
    ) -> (a: Result<Reply, StatusIb>) {
        let ghost before = self.shared@;
        let basic: bool = self.basic_supported;
        let discriminator: u16 = self.discriminator;
        let mut valid: bool = false;
        let mut vendor: Option<VendorId> = None;
        let a: Result<Reply, StatusIb> = match resolved.command {
            OPEN_COMMISSIONING_WINDOW => match decode_open_window(fields) {
                Err(status) => Err(status),
                Ok(request) => {
                    valid = self.hooks.is_verifier(request.verifier);
                    vendor = self.vendor(ctx.fabric_index);
                    let r: Result<(), StatusIb> = open_enhanced(
                        &mut self.shared,
                        &request,
                        valid,
                        vendor,
                        ctx.fabric_index,
                        ctx.now,
                    );
                    answer_to(r)
                },
            },
            OPEN_BASIC_COMMISSIONING_WINDOW => match decode_basic_window(fields) {
                Err(status) => Err(status),
                Ok(timeout) => {
                    vendor = self.vendor(ctx.fabric_index);
                    let r: Result<(), StatusIb> = open_basic(
                        &mut self.shared,
                        basic,
                        timeout,
                        discriminator,
                        vendor,
                        ctx.fabric_index,
                        ctx.now,
                    );
                    answer_to(r)
                },
            },
            REVOKE_COMMISSIONING => {
                let (_, r): (Revoked, Result<(), StatusIb>) = revoke(&mut self.shared, ctx.now);
                answer_to(r)
            },
            _ => im::refuse(Status::UnsupportedCommand),
        };
        proof {
            assert(old(self).says(resolved.command, im::octets(fields), *ctx, valid, vendor));
            assert((self.shared@, im::invoke_answer(a)) == commanded(
                before,
                basic,
                discriminator,
                resolved.command,
                im::octets(fields),
                *ctx,
                valid,
                vendor,
            ));
        }
        a
    }

    fn on_lifecycle(&mut self, event: Lifecycle) {
    }

    fn unfit_status(&self, resolved: &ResolvedCommand) -> (s: Status) {
        Status::Failure
    }
}

/// One window is open at a time: while one is, or while the fail-safe is armed, a request to open
/// one changes nothing and is answered that the node is busy.
pub proof fn law_one_window_at_a_time(
    m: SharedModel,
    r: RequestModel,
    timeout: u16,
    discriminator: u16,
    valid: bool,
    vendor: Option<VendorId>,
    fabric: Option<FabricIndex>,
    now: Instant,
)
    requires
        !may_open(m, now),
    ensures
        opened(m, r, valid, vendor, fabric, now) == (m, Some(admin_failure(AdminStatus::Busy))),
        basic_opened(m, true, timeout, discriminator, vendor, fabric, now) == (m, Some(admin_failure(AdminStatus::Busy))),
{
}

/// A request that is refused leaves the window and the fail-safe as they were; one that is granted
/// leaves a window open for between 180 and 900 seconds, under twelve bits, and the fail-safe as it
/// was.
pub proof fn law_a_window_opens_or_nothing_changes(
    m: SharedModel,
    r: RequestModel,
    valid: bool,
    vendor: Option<VendorId>,
    fabric: Option<FabricIndex>,
    now: Instant,
)
    ensures
        ({
            let (after, refused) = opened(m, r, valid, vendor, fabric, now);
            &&& after.fail_safe == m.fail_safe
            &&& match refused {
                Some(_) => after == m,
                None => {
                    &&& after.window matches Some(w) && w.status is EnhancedOpen && w.discriminator <= 0x0FFF
                        && w.admin_fabric == fabric
                    &&& 180 <= r.timeout_seconds <= 900
                    &&& now.micros < u64::MAX ==> commissioning::open_at(after.window, now) is Some
                },
            }
        }),
{
}

/// Revoking closes the window whatever its state was, always has the sessions over the passcode
/// closed, and never leaves a fail-safe armed that such a session held.
pub proof fn law_revoking_closes_whatever_was_open(m: SharedModel, now: Instant)
    ensures
        ({
            let (after, work, refused) = revoked(m, now);
            &&& after.window is None
            &&& work.close_pase_sessions
            &&& !pase_held(after.fail_safe, now)
            &&& (refused is None) == (commissioning::open_at(m.window, now) is Some)
            &&& work.stop_advertising == (refused is None)
            &&& (work.fail_safe_cleanup is Some) == pase_held(m.fail_safe, now)
        }),
{
}

/// Revoking twice does no more than revoking once, but that the second is told that no window is
/// open.
pub proof fn law_revoking_is_idempotent(m: SharedModel, now: Instant)
    ensures
        revoked(revoked(m, now).0, now).0 == revoked(m, now).0,
        revoked(revoked(m, now).0, now).2 == Some(admin_failure(AdminStatus::WindowNotOpen)),
{
}

/// While no window is open, the fabric and the vendor that opened one read as null.
pub proof fn law_no_window_reads_as_null(m: SharedModel, now: Instant, tag: Tag)
    requires
        commissioning::open_at(m.window, now) is None,
    ensures
        attribute_answer(m, WINDOW_STATUS, now, tag) == Ok::<Seq<u8>, Status>(tlv::unsigned_bytes(tag, 0)),
        attribute_answer(m, ADMIN_FABRIC_INDEX, now, tag) == Ok::<Seq<u8>, Status>(tlv::null_bytes(tag)),
        attribute_answer(m, ADMIN_VENDOR_ID, now, tag) == Ok::<Seq<u8>, Status>(tlv::null_bytes(tag)),
{
}

/// `OpenCommissioningWindow` opens a window for the time that it asks for, announced under its discriminator and with exactly the
/// verifier, the iterations and the salt that it brings, in the name of the accessing fabric and of that fabric's vendor: where
/// no window is open and no fail-safe is armed, the verifier is one, 1000 to 100000 iterations and 16 to 32 octets of salt made it,
/// the time is 180 to 900 seconds and the discriminator has twelve bits. Otherwise nothing changes, and the answer says what is
/// wrong.
pub proof fn law_a_window_opens_as_asked<'a, H: AdministratorHooks>(
    before: AdministratorCommissioning<'a, H>,
    after: AdministratorCommissioning<'a, H>,
    resolved: ResolvedCommand,
    b: Seq<u8>,
    items: Seq<tlv::Element>,
    timeout: u16,
    verifier: Seq<u8>,
    discriminator: u16,
    iterations: u32,
    salt: Seq<u8>,
    ctx: InteractionContext,
    tag: Tag,
    a: InvokeAnswer,
)
    requires
        AdministratorCommissioning::invokes(&before, &after, resolved, Some(b), ctx, tag, a),
        resolved.command == 0x00,
        walk::walked(
            b,
            seq![
                Slot(0, Want::Unsigned(0xFFFF)),
                Slot(1, Want::Octets(0, usize::MAX)),
                Slot(2, Want::Unsigned(0xFFFF)),
                Slot(3, Want::Unsigned(0xFFFF_FFFF)),
                Slot(4, Want::Octets(0, usize::MAX)),
            ],
            walk::strict(),
        ) == Ok::<Seq<tlv::Element>, Status>(items),
        walk::num(items, 0) == Some(timeout as u64),
        walk::octets(b, items, 1) == Some(verifier),
        walk::num(items, 2) == Some(discriminator as u64),
        walk::num(items, 3) == Some(iterations as u64),
        walk::octets(b, items, 4) == Some(salt),
        verifier.len() == 97,
    ensures
        after.shared@.fail_safe == before.shared@.fail_safe,
        a is Err ==> after.shared@ == before.shared@,
        exists|valid: bool, vendor: Option<VendorId>|
            {
                let was = before.shared@;
                let busy = (was.window is Some && ctx.now.micros < was.window->Some_0.expires_at.micros) || (was.fail_safe.context is Some
                    && ctx.now.micros < was.fail_safe.context->Some_0.deadline.micros);
                &&& #[trigger] before.judges(verifier, valid)
                &&& #[trigger] before.knows(ctx.fabric_index, vendor)
                &&& if busy {
                    a == Err::<(Option<CommandId>, Seq<u8>), StatusIb>(im::failed(2))
                } else if !valid || !(1000 <= iterations <= 100_000) || !(16 <= salt.len() <= 32) {
                    a == Err::<(Option<CommandId>, Seq<u8>), StatusIb>(im::failed(3))
                } else if !(180 <= timeout <= 900) {
                    a == im::refused(Status::InvalidCommand)
                } else if discriminator > 0x0FFF {
                    a == im::refused(Status::ConstraintError)
                } else {
                    &&& a == im::done()
                    &&& after.shared@.window matches Some(w) && w.status is EnhancedOpen && (ctx.now.micros + timeout * 1_000_000
                        <= u64::MAX ==> w.expires_at.micros == ctx.now.micros + timeout * 1_000_000) && w.admin_fabric == ctx.fabric_index
                        && w.admin_vendor == vendor && w.discriminator == discriminator && (w.ephemeral matches Some(e) && e.verifier
                        == verifier && e.iterations == iterations && e.salt == salt)
                }
            },
{
    assert(open_slots() =~= seq![
        Slot(0, Want::Unsigned(0xFFFF)),
        Slot(1, Want::Octets(0, usize::MAX)),
        Slot(2, Want::Unsigned(0xFFFF)),
        Slot(3, Want::Unsigned(0xFFFF_FFFF)),
        Slot(4, Want::Octets(0, usize::MAX)),
    ]);
}

/// `OpenBasicCommissioningWindow` opens a window for the device's own passcode, announced under its own discriminator, for the
/// time that it asks for, where the device has such windows and otherwise as for one with a passcode of its own.
pub proof fn law_a_basic_window_opens_as_asked<'a, H: AdministratorHooks>(
    before: AdministratorCommissioning<'a, H>,
    after: AdministratorCommissioning<'a, H>,
    resolved: ResolvedCommand,
    b: Seq<u8>,
    items: Seq<tlv::Element>,
    timeout: u16,
    ctx: InteractionContext,
    tag: Tag,
    a: InvokeAnswer,
)
    requires
        AdministratorCommissioning::invokes(&before, &after, resolved, Some(b), ctx, tag, a),
        resolved.command == 0x01,
        walk::walked(b, seq![Slot(0, Want::Unsigned(0xFFFF))], walk::strict()) == Ok::<Seq<tlv::Element>, Status>(items),
        walk::num(items, 0) == Some(timeout as u64),
    ensures
        after.shared@.fail_safe == before.shared@.fail_safe,
        a is Err ==> after.shared@ == before.shared@,
        exists|vendor: Option<VendorId>|
            {
                let was = before.shared@;
                let busy = (was.window is Some && ctx.now.micros < was.window->Some_0.expires_at.micros) || (was.fail_safe.context is Some
                    && ctx.now.micros < was.fail_safe.context->Some_0.deadline.micros);
                &&& #[trigger] before.knows(ctx.fabric_index, vendor)
                &&& if !before.basic_supported {
                    a == im::refused(Status::UnsupportedCommand)
                } else if busy {
                    a == Err::<(Option<CommandId>, Seq<u8>), StatusIb>(im::failed(2))
                } else if !(180 <= timeout <= 900) {
                    a == im::refused(Status::InvalidCommand)
                } else if before.discriminator > 0x0FFF {
                    a == im::refused(Status::ConstraintError)
                } else {
                    &&& a == im::done()
                    &&& after.shared@.window matches Some(w) && w.status is BasicOpen && (ctx.now.micros + timeout * 1_000_000
                        <= u64::MAX ==> w.expires_at.micros == ctx.now.micros + timeout * 1_000_000) && w.admin_fabric == ctx.fabric_index
                        && w.admin_vendor == vendor && w.discriminator == before.discriminator && w.ephemeral is None
                }
            },
{
    assert(basic_slots() =~= seq![Slot(0, Want::Unsigned(0xFFFF))]);
}

/// `RevokeCommissioning` leaves no window; it succeeds exactly where one was open, and ends a fail-safe exactly where a session
/// without a fabric holds it.
pub proof fn law_a_window_is_revoked<'a, H: AdministratorHooks>(
    before: AdministratorCommissioning<'a, H>,
    after: AdministratorCommissioning<'a, H>,
    resolved: ResolvedCommand,
    data: Option<Seq<u8>>,
    ctx: InteractionContext,
    tag: Tag,
    a: InvokeAnswer,
)
    requires
        AdministratorCommissioning::invokes(&before, &after, resolved, data, ctx, tag, a),
        resolved.command == 0x02,
    ensures
        after.shared@.window is None,
        a == (if before.shared@.window is Some && ctx.now.micros < before.shared@.window->Some_0.expires_at.micros {
            im::done()
        } else {
            Err::<(Option<CommandId>, Seq<u8>), StatusIb>(im::failed(4))
        }),
        ({
            let f = before.shared@.fail_safe;
            if f.context matches Some(held) && ctx.now.micros < held.deadline.micros && held.fabric_index is None {
                after.shared@.fail_safe.context is None && after.shared@.fail_safe.breadcrumb == 0
            } else {
                after.shared@.fail_safe == f
            }
        }),
{
}

/// What a read shows of the window: how it is open, and by whom, and that none is once its time is over.
pub proof fn law_a_window_is_read_as_it_is<'a, H: AdministratorHooks>(
    c: AdministratorCommissioning<'a, H>,
    resolved: Resolved,
    ctx: InteractionContext,
    tag: Tag,
    a: ReadAnswer,
)
    requires
        c.answers(resolved, ctx, tag, a),
    ensures
        ({
            let open = c.shared@.window is Some && ctx.now.micros < c.shared@.window->Some_0.expires_at.micros;
            let w = c.shared@.window->Some_0;
            let number = |v: int| a is Ok && tlv::shows_number(a->Ok_0, 0, tag, v as u64);
            let null = a == Ok::<Seq<u8>, Status>(tlv::null_bytes(tag));
            &&& resolved.attribute == 0x0000 ==> number(
                if !open || w.status is NotOpen {
                    0
                } else if w.status is EnhancedOpen {
                    1
                } else {
                    2
                },
            )
            &&& resolved.attribute == 0x0001 ==> if open && w.admin_fabric is Some { number(w.admin_fabric->Some_0.0 as int) } else { null }
            &&& resolved.attribute == 0x0002 ==> if open && w.admin_vendor is Some { number(w.admin_vendor->Some_0.0 as int) } else { null }
        }),
{
    assert forall|v: u64| tlv::shows_number(#[trigger] tlv::unsigned_bytes(tag, v), 0, tag, v) by {
        tlv::lemma_shows_number(tag, v);
    }
}

/// Who may do what: every command needs Administer and a timed interaction, and the one for the device's own passcode is there
/// exactly where the device has such windows; every attribute can be read with View and none can be written.
pub proof fn law_windows_are_for_administrators(basic: bool, c: CommandDescriptor, d: AttributeDescriptor)
    ensures
        description(basic).accepted_commands.contains(c) == (c == (CommandDescriptor {
            id: c.id,
            access: Access {
                read: None,
                write: None,
                invoke: Some(Privilege::Administer),
                qualities: dm::AccessQualities { fabric_scoped: false, fabric_sensitive: false, timed: true },
            },
            response: None,
        }) && (c.id == 0x00 || c.id == 0x02 || (c.id == 0x01 && basic))),
        description(basic).attributes.contains(d) ==> d.access.read == Some(Privilege::View) && d.access.write is None && d.id <= 2,
        description(basic).feature_map == (if basic { 1u32 } else { 0 }),
        description(basic).id == 0x003C,
{
    let l = description(basic).accepted_commands;
    if c.id == 0x00 {
        assert(l[0].id == 0x00);
    }
    if basic {
        assert(l[0].id == 0 && l[1].id == 1 && l[2].id == 2);
    } else {
        assert(l[0].id == 0 && l[1].id == 2);
    }
}

} // verus!
