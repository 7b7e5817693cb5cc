//! Clusters of one node that work on one state.
//!
//! A node is in one region, and has one fail-safe, one commissioning window and one table of group
//! keys; an endpoint is identifying itself or not. What stands here holds each of them once, and lends
//! it to the cluster that is addressed.

use vstd::prelude::*;
use vstd::utf8;

use crate::bounded;
use crate::clusters::administrator_commissioning;
use crate::clusters::administrator_commissioning::{AdminStatus, AdministratorCommissioning, AdministratorHooks};
use crate::clusters::basic_information;
use crate::clusters::basic_information::BasicInformation;
use crate::clusters::general_commissioning;
use crate::clusters::general_commissioning::GeneralCommissioning;
use crate::clusters::group_key_management;
use crate::clusters::group_key_management::{GroupKeyManagement, GroupTable};
use crate::clusters::groupcast;
use crate::clusters::groupcast::Groupcast;
use crate::clusters::groups;
use crate::clusters::groups::{Groups, Identifying, IdentifyingNow, ScenePurge};
use crate::clusters::identify;
use crate::clusters::identify::{Identify, IdentifyHooks};
use crate::clusters::joint_fabric_administrator;
use crate::clusters::joint_fabric_administrator::{JointFabricAdministrator, JointFabricHooks};
use crate::clusters::joint_fabric_administrator::recorded::Recorded;
use crate::commissioning;
use crate::commissioning::{CommissioningError, Shared};
use crate::fields;
use crate::group;
use crate::group::GroupKeys;
use crate::im;
use crate::im::{
    ClusterHandler, ClusterId, CommandId, InteractionContext, InvokeAnswer, Lifecycle, ReadAnswer, Reply, Resolved,
    ResolvedCommand, Status, StatusIb, WriteOp,
};
use crate::msg::FabricIndex;
use crate::tlv;
use crate::tlv::{Element, Tag};

verus! {

/// Administrator Commissioning but for the window and the fail-safe that it works on.
#[derive(Debug)]
pub struct Windows<'a, H: AdministratorHooks> {
    /// Whether there are windows for the device's passcode.
    pub basic_supported: bool,
    /// The discriminator that is printed on the device.
    pub discriminator: u16,
    /// What the node knows.
    pub hooks: &'a H,
}

/// Whether a cluster is one of commissioning.
pub open spec fn commissions(cluster: ClusterId) -> bool {
    cluster == basic_information::ID || cluster == general_commissioning::ID || cluster == administrator_commissioning::ID
}

/// What a command is answered with whose response does not fit.
pub open spec fn unfit(cluster: ClusterId) -> Status {
    if cluster == general_commissioning::ID {
        Status::ResourceExhausted
    } else {
        Status::Failure
    }
}

/// The clusters of commissioning on one node, and what answers for every other.
///
/// The fail-safe and the window are those of General Commissioning. Administrator Commissioning works
/// on them. The region of Basic Information is that of General Commissioning.
pub struct Commissioning<'a, H: AdministratorHooks, R: ClusterHandler> {
    /// Basic Information.
    pub basic: BasicInformation<'a>,
    /// General Commissioning, with the node's fail-safe and window.
    pub general: GeneralCommissioning,
    /// Administrator Commissioning.
    pub windows: Windows<'a, H>,
    /// What answers for every other cluster.
    pub rest: R,
}

impl<'a, H: AdministratorHooks, R: ClusterHandler> Commissioning<'a, H, R> {
    /// Administrator Commissioning on the node's fail-safe and window.
    pub open spec fn administrator(&self) -> AdministratorCommissioning<'a, H> {
        AdministratorCommissioning {
            shared: self.general.shared,
            basic_supported: self.windows.basic_supported,
            discriminator: self.windows.discriminator,
            hooks: self.windows.hooks,
        }
    }

    /// Whether the clusters are in one region.
    pub open spec fn agrees(&self) -> bool {
        self.basic.location == self.general.location
    }

    /// The clusters on the region, the fail-safe and the window of General Commissioning.
    pub fn new(
        basic: BasicInformation<'a>,
        general: GeneralCommissioning,
        windows: AdministratorCommissioning<'a, H>,
        rest: R,
    ) -> (c: Self)
        ensures
            c.agrees(),
            c.basic == (BasicInformation { location: general.location, ..basic }),
            c.general == general,
            c.administrator() == (AdministratorCommissioning { shared: general.shared, ..windows }),
            c.rest == rest,
    {
        let mut basic: BasicInformation<'a> = basic;
        basic.location = general.location;
        let windows: Windows<'a, H> = Windows {
            basic_supported: windows.basic_supported,
            discriminator: windows.discriminator,
            hooks: windows.hooks,
        };
        Commissioning { basic, general, windows, rest }
    }

    /// Administrator Commissioning with the node's fail-safe and window, which it has until they are
    /// taken back.
    fn lend(&mut self) -> (c: AdministratorCommissioning<'a, H>)
        ensures
            c == old(self).administrator(),
            final(self).basic == old(self).basic,
            final(self).general == (GeneralCommissioning { shared: final(self).general.shared, ..old(self).general }),
            final(self).windows == old(self).windows,
            final(self).rest == old(self).rest,
    {
        let mut shared: Shared = Shared::new(self.general.shared.fail_safe.info);
        self.general.exchange(&mut shared);
        AdministratorCommissioning {
            shared,
            basic_supported: self.windows.basic_supported,
            discriminator: self.windows.discriminator,
            hooks: self.windows.hooks,
        }
    }
}

impl<'a, H: AdministratorHooks, R: ClusterHandler> ClusterHandler for Commissioning<'a, H, R> {
    open spec fn answers(&self, resolved: Resolved, ctx: InteractionContext, tag: Tag, a: ReadAnswer) -> bool {
        if resolved.cluster == basic_information::ID {
            self.basic.answers(resolved, ctx, tag, a)
        } else if resolved.cluster == general_commissioning::ID {
            self.general.answers(resolved, ctx, tag, a)
        } else if resolved.cluster == administrator_commissioning::ID {
            self.administrator().answers(resolved, ctx, tag, a)
        } else {
            self.rest.answers(resolved, ctx, tag, a)
        }
    }

    open spec fn writes(
        before: &Self,
        after: &Self,
        resolved: Resolved,
        data: Seq<u8>,
        op: WriteOp,
        ctx: InteractionContext,
        r: Result<(), Status>,
    ) -> bool {
        if resolved.cluster == basic_information::ID {
            &&& BasicInformation::writes(&before.basic, &after.basic, resolved, data, op, ctx, r)
            &&& after.general == (GeneralCommissioning { location: after.basic.location, ..before.general })
            &&& after.windows == before.windows
            &&& after.rest == before.rest
        } else if resolved.cluster == general_commissioning::ID {
            &&& GeneralCommissioning::writes(&before.general, &after.general, resolved, data, op, ctx, r)
            &&& after.basic == (BasicInformation { location: after.general.location, ..before.basic })
            &&& after.windows == before.windows
            &&& after.rest == before.rest
        } else if resolved.cluster == administrator_commissioning::ID {
            &&& AdministratorCommissioning::writes(
                &before.administrator(),
                &after.administrator(),
                resolved,
                data,
                op,
                ctx,
                r,
            )
            &&& after.general == (GeneralCommissioning { shared: after.general.shared, ..before.general })
            &&& after.basic == before.basic
            &&& after.rest == before.rest
        } else {
            &&& R::writes(&before.rest, &after.rest, resolved, data, op, ctx, r)
            &&& after.basic == before.basic
            &&& after.general == before.general
            &&& after.windows == before.windows
        }
    }

    open spec fn invokes(
        before: &Self,
        after: &Self,
        resolved: ResolvedCommand,
        fields: Option<Seq<u8>>,
        ctx: InteractionContext,
        tag: Tag,
        a: InvokeAnswer,
    ) -> bool {
        if resolved.cluster == basic_information::ID {
            &&& BasicInformation::invokes(&before.basic, &after.basic, resolved, fields, ctx, tag, a)
            &&& after.general == (GeneralCommissioning { location: after.basic.location, ..before.general })
            &&& after.windows == before.windows
            &&& after.rest == before.rest
        } else if resolved.cluster == general_commissioning::ID {
            &&& GeneralCommissioning::invokes(&before.general, &after.general, resolved, fields, ctx, tag, a)
            &&& after.basic == (BasicInformation { location: after.general.location, ..before.basic })
            &&& after.windows == before.windows
            &&& after.rest == before.rest
        } else if resolved.cluster == administrator_commissioning::ID {
            &&& AdministratorCommissioning::invokes(
                &before.administrator(),
                &after.administrator(),
                resolved,
                fields,
                ctx,
                tag,
                a,
            )
            &&& after.general == (GeneralCommissioning { shared: after.general.shared, ..before.general })
            &&& after.basic == before.basic
            &&& after.rest == before.rest
        } else {
            &&& R::invokes(&before.rest, &after.rest, resolved, fields, ctx, tag, a)
            &&& after.basic == before.basic
            &&& after.general == before.general
            &&& after.windows == before.windows
        }
    }

    open spec fn outlives(before: &Self, after: &Self, event: Lifecycle) -> bool {
        &&& R::outlives(&before.rest, &after.rest, event)
        &&& after.basic == before.basic
        &&& after.general == before.general
        &&& after.windows == before.windows
    }

    open spec fn unfit(&self, resolved: ResolvedCommand) -> Status {
        if commissions(resolved.cluster) {
            unfit(resolved.cluster)
        } else {
            self.rest.unfit(resolved)
        }
    }

    fn answer(&self, resolved: &Resolved, ctx: &InteractionContext, tag: Tag) -> (a: Result<Vec<u8>, Status>) {
        match resolved.cluster {
            basic_information::ID => self.basic.answer(resolved, ctx, tag),
            general_commissioning::ID => self.general.answer(resolved, ctx, tag),
            administrator_commissioning::ID => administrator_commissioning::encode_attribute(
                &self.general.shared,
                resolved.attribute,
                ctx.now,
                tag,
            ),
            _ => self.rest.answer(resolved, ctx, tag),
        }
    }

    fn write(&mut self, resolved: &Resolved, data: &[u8], op: WriteOp, ctx: &InteractionContext) -> (r: Result<(), Status>) {
        match resolved.cluster {
            basic_information::ID => {
                let r: Result<(), Status> = self.basic.write(resolved, data, op, ctx);
                self.general.location = self.basic.location;
                r
            },
            general_commissioning::ID => {
                let r: Result<(), Status> = self.general.write(resolved, data, op, ctx);
                self.basic.location = self.general.location;
                r
            },
            administrator_commissioning::ID => {
                let mut c: AdministratorCommissioning<'a, H> = self.lend();
                let r: Result<(), Status> = c.write(resolved, data, op, ctx);
                self.general.exchange(&mut c.shared);
                r
            },
            _ => self.rest.write(resolved, data, op, ctx),
        }
    }

    fn perform(
        &mut self,
        resolved: &ResolvedCommand,
        fields: Option<&[u8]>,
        ctx: &InteractionContext,
        tag: Tag,
    ) -> (a: Result<Reply, StatusIb>) {
        match resolved.cluster {
            basic_information::ID => {
                let a: Result<Reply, StatusIb> = self.basic.perform(resolved, fields, ctx, tag);
                self.general.location = self.basic.location;
                a
            },
            general_commissioning::ID => {
                let a: Result<Reply, StatusIb> = self.general.perform(resolved, fields, ctx, tag);
                self.basic.location = self.general.location;
                a
            },
            administrator_commissioning::ID => {
                let mut c: AdministratorCommissioning<'a, H> = self.lend();
                let a: Result<Reply, StatusIb> = c.perform(resolved, fields, ctx, tag);
                self.general.exchange(&mut c.shared);
                a
            },
            _ => self.rest.perform(resolved, fields, ctx, tag),
        }
    }

    fn on_lifecycle(&mut self, event: Lifecycle) {
        self.rest.on_lifecycle(event);
    }

    fn unfit_status(&self, resolved: &ResolvedCommand) -> (s: Status) {
        match resolved.cluster {
            general_commissioning::ID => Status::ResourceExhausted,
            basic_information::ID | administrator_commissioning::ID => Status::Failure,
            _ => self.rest.unfit_status(resolved),
        }
    }

    fn data_version(&self, resolved: &Resolved) -> (v: Option<u32>)
        ensures
            if commissions(resolved.cluster) {
                v is None
            } else {
                call_ensures(R::data_version, (&self.rest, resolved), v)
            },
    {
        match resolved.cluster {
            basic_information::ID | general_commissioning::ID | administrator_commissioning::ID => None,
            _ => self.rest.data_version(resolved),
        }
    }
}

/// The clusters of a node stay in one region, whatever is written and commanded, and whatever happens
/// to the node.
pub proof fn law_the_region_stays_one<'a, H: AdministratorHooks, R: ClusterHandler>(
    before: Commissioning<'a, H, R>,
    after: Commissioning<'a, H, R>,
    written: Resolved,
    data: Seq<u8>,
    op: WriteOp,
    r: Result<(), Status>,
    resolved: ResolvedCommand,
    fields: Option<Seq<u8>>,
    ctx: InteractionContext,
    tag: Tag,
    a: InvokeAnswer,
    event: Lifecycle,
)
    requires
        before.agrees(),
        Commissioning::<'a, H, R>::writes(&before, &after, written, data, op, ctx, r) || Commissioning::<'a, H, R>::invokes(
            &before,
            &after,
            resolved,
            fields,
            ctx,
            tag,
            a,
        ) || Commissioning::<'a, H, R>::outlives(&before, &after, event),
    ensures
        after.agrees(),
{
}

/// The region that a `SetRegulatoryConfig` that succeeded gave is what a read of Basic Information's
/// `Location` gives back.
pub proof fn law_a_regulatory_region_is_read_back<'a, H: AdministratorHooks, R: ClusterHandler>(
    before: Commissioning<'a, H, R>,
    after: Commissioning<'a, H, R>,
    resolved: ResolvedCommand,
    fields: Option<Seq<u8>>,
    ctx: InteractionContext,
    tag: Tag,
    a: InvokeAnswer,
    read: Resolved,
    then: InteractionContext,
    read_tag: Tag,
    b: ReadAnswer,
)
    requires
        resolved.cluster == general_commissioning::ID,
        resolved.command == general_commissioning::SET_REGULATORY_CONFIG,
        Commissioning::<'a, H, R>::invokes(&before, &after, resolved, fields, ctx, tag, a),
        a == general_commissioning::responded(general_commissioning::SET_REGULATORY_CONFIG_RESPONSE, tag, CommissioningError::Success),
        read.cluster == basic_information::ID,
        read.attribute == basic_information::LOCATION,
        after.answers(read, then, read_tag, b),
    ensures
        general_commissioning::regulatory_decoded(fields) matches Ok((_, country, _)) && b == Ok::<Seq<u8>, Status>(
            tlv::text_bytes(read_tag, country),
        ),
{
    let decoded = general_commissioning::regulatory_decoded(fields);
    if let Ok((config, country, breadcrumb)) = decoded {
        let error = general_commissioning::regulated(
            before.general.state(),
            before.general.location_capability,
            config,
            country,
            breadcrumb,
        ).1;
        general_commissioning::law_the_response_tells_the_error(tag, error, CommissioningError::Success);
        let octets = utf8::encode_utf8(country);
        assert(octets =~= seq![octets[0], octets[1]]);
    }
}

/// A region that is written to Basic Information is General Commissioning's as well.
pub proof fn law_a_written_region_is_commissionings<'a, H: AdministratorHooks, R: ClusterHandler>(
    before: Commissioning<'a, H, R>,
    after: Commissioning<'a, H, R>,
    resolved: Resolved,
    data: Seq<u8>,
    op: WriteOp,
    ctx: InteractionContext,
)
    requires
        resolved.cluster == basic_information::ID,
        resolved.attribute == basic_information::LOCATION,
        Commissioning::<'a, H, R>::writes(&before, &after, resolved, data, op, ctx, Ok(())),
    ensures
        basic_information::text_written(data) matches Ok(country) && basic_information::region(country) == Some(
            after.general.state().location,
        ),
        after.general.shared == before.general.shared,
{
}

/// A fail-safe that General Commissioning armed is seen by Administrator Commissioning: for as long as
/// it lasts, a request to open a window changes nothing and is answered that the node is busy.
pub proof fn law_an_armed_fail_safe_keeps_windows_shut<'a, H: AdministratorHooks, R: ClusterHandler>(
    before: Commissioning<'a, H, R>,
    armed: Commissioning<'a, H, R>,
    after: Commissioning<'a, H, R>,
    arm: ResolvedCommand,
    arm_fields: Option<Seq<u8>>,
    ctx: InteractionContext,
    tag: Tag,
    open: ResolvedCommand,
    open_fields: Option<Seq<u8>>,
    then: InteractionContext,
    open_tag: Tag,
    b: InvokeAnswer,
)
    requires
        arm.cluster == general_commissioning::ID,
        arm.command == general_commissioning::ARM_FAIL_SAFE,
        general_commissioning::arm_decoded(arm_fields) matches Ok((seconds, _)) && seconds > 0,
        Commissioning::<'a, H, R>::invokes(
            &before,
            &armed,
            arm,
            arm_fields,
            ctx,
            tag,
            general_commissioning::responded(general_commissioning::ARM_FAIL_SAFE_RESPONSE, tag, CommissioningError::Success),
        ),
        open.cluster == administrator_commissioning::ID,
        open.command == administrator_commissioning::OPEN_COMMISSIONING_WINDOW && administrator_commissioning::decoded(
            open_fields,
        ) is Ok || open.command == administrator_commissioning::OPEN_BASIC_COMMISSIONING_WINDOW
            && administrator_commissioning::basic_decoded(open_fields) is Ok && armed.windows.basic_supported,
        Commissioning::<'a, H, R>::invokes(&armed, &after, open, open_fields, then, open_tag, b),
    ensures
        armed.general.shared.fail_safe.context matches Some(held) && {
            &&& held.deadline == commissioning::earlier(
                commissioning::seconds_after(ctx.now, general_commissioning::arm_decoded(arm_fields)->Ok_0.0 as int),
                held.limit,
            )
            &&& then.now.micros < held.deadline.micros ==> b == Err::<(Option<CommandId>, Seq<u8>), StatusIb>(
                administrator_commissioning::admin_failure(AdminStatus::Busy),
            ) && after.general.shared@ == armed.general.shared@
        },
{
    let (seconds, breadcrumb) = general_commissioning::arm_decoded(arm_fields)->Ok_0;
    let error = general_commissioning::fail_safe_armed(
        before.general.state(),
        seconds,
        breadcrumb,
        ctx.fabric_index,
        ctx.fabric_index is Some,
        ctx.now,
    ).1.error;
    general_commissioning::law_the_response_tells_the_error(tag, error, CommissioningError::Success);
}

/// A window that Administrator Commissioning opened is seen by General Commissioning: while it is open
/// and the fail-safe is not armed, an administrator that is on a fabric already cannot arm it.
pub proof fn law_an_open_window_keeps_the_fail_safe<'a, H: AdministratorHooks, R: ClusterHandler>(
    before: Commissioning<'a, H, R>,
    opened: Commissioning<'a, H, R>,
    after: Commissioning<'a, H, R>,
    open: ResolvedCommand,
    open_fields: Option<Seq<u8>>,
    ctx: InteractionContext,
    tag: Tag,
    arm: ResolvedCommand,
    arm_fields: Option<Seq<u8>>,
    then: InteractionContext,
    arm_tag: Tag,
    b: InvokeAnswer,
)
    requires
        open.cluster == administrator_commissioning::ID,
        open.command == administrator_commissioning::OPEN_COMMISSIONING_WINDOW || open.command
            == administrator_commissioning::OPEN_BASIC_COMMISSIONING_WINDOW,
        Commissioning::<'a, H, R>::invokes(&before, &opened, open, open_fields, ctx, tag, im::done()),
        arm.cluster == general_commissioning::ID,
        arm.command == general_commissioning::ARM_FAIL_SAFE,
        general_commissioning::arm_decoded(arm_fields) is Ok,
        then.fabric_index is Some,
        ctx.now.micros <= then.now.micros,
        Commissioning::<'a, H, R>::invokes(&opened, &after, arm, arm_fields, then, arm_tag, b),
    ensures
        opened.general.shared@.window matches Some(w) && (then.now.micros < w.expires_at.micros ==> b == general_commissioning::responded(general_commissioning::ARM_FAIL_SAFE_RESPONSE, arm_tag, CommissioningError::BusyWithOtherAdmin) && after.general.shared@.window == opened.general.shared@.window),
{
}

/// A commissioning that is completed leaves Administrator Commissioning without a window and without
/// its passcode verifier: it answers from then on that none is open.
pub proof fn law_completion_closes_the_window_of_every_cluster<'a, H: AdministratorHooks, R: ClusterHandler>(
    before: Commissioning<'a, H, R>,
    after: Commissioning<'a, H, R>,
    resolved: ResolvedCommand,
    fields: Option<Seq<u8>>,
    ctx: InteractionContext,
    tag: Tag,
    read: Resolved,
    then: InteractionContext,
    read_tag: Tag,
    b: ReadAnswer,
)
    requires
        resolved.cluster == general_commissioning::ID,
        resolved.command == general_commissioning::COMMISSIONING_COMPLETE,
        Commissioning::<'a, H, R>::invokes(
            &before,
            &after,
            resolved,
            fields,
            ctx,
            tag,
            general_commissioning::responded(general_commissioning::COMMISSIONING_COMPLETE_RESPONSE, tag, CommissioningError::Success),
        ),
        read.cluster == administrator_commissioning::ID,
        after.answers(read, then, read_tag, b),
    ensures
        after.administrator().shared@.window is None,
        after.administrator().shared.fail_safe.context is None,
        read.attribute == administrator_commissioning::WINDOW_STATUS ==> b == Ok::<Seq<u8>, Status>(
            tlv::unsigned_bytes(read_tag, 0),
        ),
        read.attribute == administrator_commissioning::ADMIN_FABRIC_INDEX || read.attribute
            == administrator_commissioning::ADMIN_VENDOR_ID ==> b == Ok::<Seq<u8>, Status>(tlv::null_bytes(read_tag)),
{
    let error = general_commissioning::commissioned(
        before.general.state(),
        ctx.fabric_index is Some,
        ctx.fabric_index,
        ctx.now,
    ).1.error;
    general_commissioning::law_the_response_tells_the_error(tag, error, CommissioningError::Success);
}

/// A window that is revoked is closed for General Commissioning, and takes along a fail-safe that a
/// session without a fabric had armed.
pub proof fn law_revocation_reaches_general_commissioning<'a, H: AdministratorHooks, R: ClusterHandler>(
    before: Commissioning<'a, H, R>,
    after: Commissioning<'a, H, R>,
    resolved: ResolvedCommand,
    fields: Option<Seq<u8>>,
    ctx: InteractionContext,
    tag: Tag,
    a: InvokeAnswer,
)
    requires
        resolved.cluster == administrator_commissioning::ID,
        resolved.command == administrator_commissioning::REVOKE_COMMISSIONING,
        Commissioning::<'a, H, R>::invokes(&before, &after, resolved, fields, ctx, tag, a),
    ensures
        after.general.shared@.window is None,
        administrator_commissioning::pase_held(before.general.shared.fail_safe, ctx.now)
            ==> after.general.shared.fail_safe.context is None && after.general.shared.fail_safe.breadcrumb == 0,
        !administrator_commissioning::pase_held(before.general.shared.fail_safe, ctx.now)
            ==> after.general.shared.fail_safe == before.general.shared.fail_safe,
        a == im::done() <==> commissioning::open_at(before.general.shared@.window, ctx.now) is Some,
{
}

/// Joint Fabric Administrator but for the window and the fail-safe that it works on.
pub struct Joint<'a, J: JointFabricHooks> {
    /// The product, with what it was told.
    pub hooks: Recorded<'a, J>,
    /// The fabric that is the Joint Fabric's, where there is one.
    pub administrator_fabric: Option<FabricIndex>,
    /// The fabric that a signing request was given to.
    pub csr_issued_to: Option<FabricIndex>,
    /// Whether a certificate was added inside the fail-safe.
    pub icac_added: bool,
}

/// The clusters of commissioning on a node that can be part of a Joint Fabric, and what answers for
/// every other. Joint Fabric Administrator works on the same fail-safe and window as the others.
pub struct JointCommissioning<'a, H: AdministratorHooks, J: JointFabricHooks, R: ClusterHandler> {
    /// The clusters of commissioning, with the node's fail-safe and window.
    pub commissioning: Commissioning<'a, H, R>,
    /// Joint Fabric Administrator.
    pub joint: Joint<'a, J>,
}

impl<'a, H: AdministratorHooks, J: JointFabricHooks, R: ClusterHandler> JointCommissioning<'a, H, J, R> {
    /// Joint Fabric Administrator on the node's fail-safe and window.
    pub open spec fn joint_administrator(&self) -> JointFabricAdministrator<'a, J> {
        JointFabricAdministrator {
            hooks: self.joint.hooks,
            shared: self.commissioning.general.shared,
            administrator_fabric: self.joint.administrator_fabric,
            csr_issued_to: self.joint.csr_issued_to,
            icac_added: self.joint.icac_added,
        }
    }

    /// Whether nothing of the clusters of commissioning differs but the fail-safe and the window.
    pub open spec fn same_but_shared(&self, other: &Self) -> bool {
        self.commissioning == (Commissioning {
            general: GeneralCommissioning {
                shared: self.commissioning.general.shared,
                ..other.commissioning.general
            },
            ..other.commissioning
        })
    }

    /// The clusters on the fail-safe and the window of the clusters of commissioning.
    pub fn new(commissioning: Commissioning<'a, H, R>, joint: JointFabricAdministrator<'a, J>) -> (c: Self)
        ensures
            c.commissioning == commissioning,
            c.joint_administrator() == (JointFabricAdministrator { shared: commissioning.general.shared, ..joint }),
    {
        let joint: Joint<'a, J> = Joint {
            hooks: joint.hooks,
            administrator_fabric: joint.administrator_fabric,
            csr_issued_to: joint.csr_issued_to,
            icac_added: joint.icac_added,
        };
        JointCommissioning { commissioning, joint }
    }

    /// Joint Fabric Administrator with the node's fail-safe and window and with the product's record, which
    /// it has until they are taken back.
    fn lend(&mut self) -> (c: JointFabricAdministrator<'a, J>)
        ensures
            c == old(self).joint_administrator(),
            final(self).same_but_shared(old(self)),
    {
        let mut shared: Shared = Shared::new(self.commissioning.general.shared.fail_safe.info);
        self.commissioning.general.exchange(&mut shared);
        JointFabricAdministrator {
            hooks: self.joint.hooks.take(),
            shared,
            administrator_fabric: self.joint.administrator_fabric,
            csr_issued_to: self.joint.csr_issued_to,
            icac_added: self.joint.icac_added,
        }
    }

    /// Takes the node's fail-safe and window back, and what Joint Fabric Administrator remembers.
    fn take_back(&mut self, c: JointFabricAdministrator<'a, J>)
        ensures
            final(self).joint_administrator() == c,
            final(self).same_but_shared(old(self)),
    {
        let mut c: JointFabricAdministrator<'a, J> = c;
        self.commissioning.general.exchange(&mut c.shared);
        self.joint = Joint {
            hooks: c.hooks,
            administrator_fabric: c.administrator_fabric,
            csr_issued_to: c.csr_issued_to,
            icac_added: c.icac_added,
        };
    }
}

impl<'a, H: AdministratorHooks, J: JointFabricHooks, R: ClusterHandler> ClusterHandler for JointCommissioning<'a, H, J, R> {
    open spec fn answers(&self, resolved: Resolved, ctx: InteractionContext, tag: Tag, a: ReadAnswer) -> bool {
        if resolved.cluster == joint_fabric_administrator::ID {
            self.joint_administrator().answers(resolved, ctx, tag, a)
        } else {
            self.commissioning.answers(resolved, ctx, tag, a)
        }
    }

    open spec fn writes(
        before: &Self,
        after: &Self,
        resolved: Resolved,
        data: Seq<u8>,
        op: WriteOp,
        ctx: InteractionContext,
        r: Result<(), Status>,
    ) -> bool {
        if resolved.cluster == joint_fabric_administrator::ID {
            &&& JointFabricAdministrator::writes(
                &before.joint_administrator(),
                &after.joint_administrator(),
                resolved,
                data,
                op,
                ctx,
                r,
            )
            &&& after.same_but_shared(before)
        } else {
            &&& Commissioning::writes(&before.commissioning, &after.commissioning, resolved, data, op, ctx, r)
            &&& after.joint == before.joint
        }
    }

    open spec fn invokes(
        before: &Self,
        after: &Self,
        resolved: ResolvedCommand,
        fields: Option<Seq<u8>>,
        ctx: InteractionContext,
        tag: Tag,
        a: InvokeAnswer,
    ) -> bool {
        if resolved.cluster == joint_fabric_administrator::ID {
            &&& JointFabricAdministrator::invokes(
                &before.joint_administrator(),
                &after.joint_administrator(),
                resolved,
                fields,
                ctx,
                tag,
                a,
            )
            &&& after.same_but_shared(before)
        } else {
            &&& Commissioning::invokes(&before.commissioning, &after.commissioning, resolved, fields, ctx, tag, a)
            &&& after.joint == before.joint
        }
    }

    open spec fn outlives(before: &Self, after: &Self, event: Lifecycle) -> bool {
        &&& Commissioning::outlives(&before.commissioning, &after.commissioning, event)
        &&& after.joint == before.joint
    }

    open spec fn unfit(&self, resolved: ResolvedCommand) -> Status {
        if resolved.cluster == joint_fabric_administrator::ID {
            Status::Failure
        } else {
            self.commissioning.unfit(resolved)
        }
    }

    fn answer(&self, resolved: &Resolved, ctx: &InteractionContext, tag: Tag) -> (a: Result<Vec<u8>, Status>) {
        match resolved.cluster {
            joint_fabric_administrator::ID => joint_fabric_administrator::encode_attribute(
                self.joint.administrator_fabric,
                resolved.attribute,
                tag,
            ),
            _ => self.commissioning.answer(resolved, ctx, tag),
        }
    }

    fn write(&mut self, resolved: &Resolved, data: &[u8], op: WriteOp, ctx: &InteractionContext) -> (r: Result<(), Status>) {
        match resolved.cluster {
            joint_fabric_administrator::ID => {
                let mut c: JointFabricAdministrator<'a, J> = self.lend();
                let r: Result<(), Status> = c.write(resolved, data, op, ctx);
                self.take_back(c);
                r
            },
            _ => self.commissioning.write(resolved, data, op, ctx),
        }
    }

    fn perform(
        &mut self,
        resolved: &ResolvedCommand,
        fields: Option<&[u8]>,
        ctx: &InteractionContext,
        tag: Tag,
    ) -> (a: Result<Reply, StatusIb>) {
        match resolved.cluster {
            joint_fabric_administrator::ID => {
                let mut c: JointFabricAdministrator<'a, J> = self.lend();
                let a: Result<Reply, StatusIb> = c.perform(resolved, fields, ctx, tag);
                self.take_back(c);
                a
            },
            _ => self.commissioning.perform(resolved, fields, ctx, tag),
        }
    }

    fn on_lifecycle(&mut self, event: Lifecycle) {
        self.commissioning.on_lifecycle(event);
    }

    fn unfit_status(&self, resolved: &ResolvedCommand) -> (s: Status) {
        match resolved.cluster {
            joint_fabric_administrator::ID => Status::Failure,
            _ => self.commissioning.unfit_status(resolved),
        }
    }

    fn data_version(&self, resolved: &Resolved) -> (v: Option<u32>)
        ensures
            if resolved.cluster == joint_fabric_administrator::ID {
                v is None
            } else {
                call_ensures(Commissioning::<'a, H, R>::data_version, (&self.commissioning, resolved), v)
            },
    {
        match resolved.cluster {
            joint_fabric_administrator::ID => None,
            _ => self.commissioning.data_version(resolved),
        }
    }
}

/// The clusters of a node that can be part of a Joint Fabric stay in one region as well.
pub proof fn law_the_region_stays_one_on_a_joint_fabric<'a, H: AdministratorHooks, J: JointFabricHooks, R: ClusterHandler>(
    before: JointCommissioning<'a, H, J, R>,
    after: JointCommissioning<'a, H, J, R>,
    written: Resolved,
    data: Seq<u8>,
    op: WriteOp,
    r: Result<(), Status>,
    resolved: ResolvedCommand,
    fields: Option<Seq<u8>>,
    ctx: InteractionContext,
    tag: Tag,
    a: InvokeAnswer,
    event: Lifecycle,
)
    requires
        before.commissioning.agrees(),
        JointCommissioning::<'a, H, J, R>::writes(&before, &after, written, data, op, ctx, r) || JointCommissioning::<
            'a,
            H,
            J,
            R,
        >::invokes(&before, &after, resolved, fields, ctx, tag, a) || JointCommissioning::<'a, H, J, R>::outlives(
            &before,
            &after,
            event,
        ),
    ensures
        after.commissioning.agrees(),
{
}

/// A fail-safe is armed for Joint Fabric Administrator as well: while it is, a request to open a joint
/// window changes nothing and is answered that the node is busy.
pub proof fn law_an_armed_fail_safe_keeps_joint_windows_shut<
    'a,
    H: AdministratorHooks,
    J: JointFabricHooks,
    R: ClusterHandler,
>(
    before: JointCommissioning<'a, H, J, R>,
    after: JointCommissioning<'a, H, J, R>,
    resolved: ResolvedCommand,
    fields: Option<Seq<u8>>,
    ctx: InteractionContext,
    tag: Tag,
    a: InvokeAnswer,
)
    requires
        commissioning::held(before.commissioning.general.shared.fail_safe, ctx.now) is Some,
        before.joint.administrator_fabric is Some,
        resolved.cluster == joint_fabric_administrator::ID,
        resolved.command == joint_fabric_administrator::OPEN_JOINT_COMMISSIONING_WINDOW,
        joint_fabric_administrator::open_decoded(fields) is Ok,
        JointCommissioning::<'a, H, J, R>::invokes(&before, &after, resolved, fields, ctx, tag, a),
    ensures
        a == Err::<(Option<CommandId>, Seq<u8>), StatusIb>(administrator_commissioning::admin_failure(AdminStatus::Busy)),
        after.commissioning.general.shared@ == before.commissioning.general.shared@,
{
}

/// A window that Joint Fabric Administrator opened is what Administrator Commissioning answers about.
pub proof fn law_a_joint_window_is_seen<'a, H: AdministratorHooks, J: JointFabricHooks, R: ClusterHandler>(
    before: JointCommissioning<'a, H, J, R>,
    after: JointCommissioning<'a, H, J, R>,
    resolved: ResolvedCommand,
    fields: Option<Seq<u8>>,
    ctx: InteractionContext,
    tag: Tag,
    read: Resolved,
    then: InteractionContext,
    read_tag: Tag,
    b: ReadAnswer,
)
    requires
        resolved.cluster == joint_fabric_administrator::ID,
        resolved.command == joint_fabric_administrator::OPEN_JOINT_COMMISSIONING_WINDOW,
        JointCommissioning::<'a, H, J, R>::invokes(&before, &after, resolved, fields, ctx, tag, im::done()),
        read.cluster == administrator_commissioning::ID,
        read.attribute == administrator_commissioning::WINDOW_STATUS,
        after.answers(read, then, read_tag, b),
    ensures
        after.commissioning.general.shared@.window matches Some(w) && b == Ok::<Seq<u8>, Status>(
            tlv::unsigned_bytes(read_tag, if then.now.micros < w.expires_at.micros { 1 } else { 0 }),
        ),
{
}

/// The clusters that work on group keys on one node, and what answers for every other.
///
/// The keys are those of Groupcast. Group Key Management works on them.
#[verifier::reject_recursive_types(E)]
pub struct GroupCommunication<
    'a,
    T: GroupTable,
    R: ClusterHandler,
    const M: usize,
    const E: usize,
    const K: usize,
    const G: usize,
> {
    /// Groupcast, with the node's keys.
    pub cast: Groupcast<M, E, K, G>,
    /// The memberships that Group Key Management lists.
    pub table: &'a T,
    /// What answers for every other cluster.
    pub rest: R,
}

impl<
    'a,
    T: GroupTable,
    R: ClusterHandler,
    const M: usize,
    const E: usize,
    const K: usize,
    const G: usize,
> GroupCommunication<'a, T, R, M, E, K, G> {
    /// Group Key Management on the node's keys.
    pub open spec fn management(&self) -> GroupKeyManagement<'a, T, K, G> {
        GroupKeyManagement { keys: self.cast.keys, table: self.table }
    }

    /// The clusters on the keys of Groupcast.
    pub fn new(cast: Groupcast<M, E, K, G>, management: GroupKeyManagement<'a, T, K, G>, rest: R) -> (c: Self)
        ensures
            c.cast == cast,
            c.management() == (GroupKeyManagement { keys: cast.keys, ..management }),
            c.rest == rest,
    {
        GroupCommunication { cast, table: management.table, rest }
    }

    /// Group Key Management with the node's keys, which it has until they are taken back.
    fn lend(&mut self) -> (c: GroupKeyManagement<'a, T, K, G>)
        ensures
            c == old(self).management(),
            final(self).cast == (Groupcast { keys: final(self).cast.keys, ..old(self).cast }),
            final(self).table == old(self).table,
            final(self).rest == old(self).rest,
    {
        let mut keys: GroupKeys<K, G> = GroupKeys::new(0, 0);
        self.cast.exchange(&mut keys);
        GroupKeyManagement { keys, table: self.table }
    }
}

impl<
    'a,
    T: GroupTable,
    R: ClusterHandler,
    const M: usize,
    const E: usize,
    const K: usize,
    const G: usize,
> ClusterHandler for GroupCommunication<'a, T, R, M, E, K, G> {
    open spec fn answers(&self, resolved: Resolved, ctx: InteractionContext, tag: Tag, a: ReadAnswer) -> bool {
        if resolved.cluster == groupcast::ID {
            self.cast.answers(resolved, ctx, tag, a)
        } else if resolved.cluster == group_key_management::ID {
            self.management().answers(resolved, ctx, tag, a)
        } else {
            self.rest.answers(resolved, ctx, tag, a)
        }
    }

    open spec fn writes(
        before: &Self,
        after: &Self,
        resolved: Resolved,
        data: Seq<u8>,
        op: WriteOp,
        ctx: InteractionContext,
        r: Result<(), Status>,
    ) -> bool {
        &&& after.table == before.table
        &&& if resolved.cluster == groupcast::ID {
            &&& Groupcast::writes(&before.cast, &after.cast, resolved, data, op, ctx, r)
            &&& after.rest == before.rest
        } else if resolved.cluster == group_key_management::ID {
            &&& GroupKeyManagement::writes(&before.management(), &after.management(), resolved, data, op, ctx, r)
            &&& after.cast == (Groupcast { keys: after.cast.keys, ..before.cast })
            &&& after.rest == before.rest
        } else {
            &&& R::writes(&before.rest, &after.rest, resolved, data, op, ctx, r)
            &&& after.cast == before.cast
        }
    }

    open spec fn invokes(
        before: &Self,
        after: &Self,
        resolved: ResolvedCommand,
        fields: Option<Seq<u8>>,
        ctx: InteractionContext,
        tag: Tag,
        a: InvokeAnswer,
    ) -> bool {
        &&& after.table == before.table
        &&& if resolved.cluster == groupcast::ID {
            &&& Groupcast::invokes(&before.cast, &after.cast, resolved, fields, ctx, tag, a)
            &&& after.rest == before.rest
        } else if resolved.cluster == group_key_management::ID {
            &&& GroupKeyManagement::invokes(&before.management(), &after.management(), resolved, fields, ctx, tag, a)
            &&& after.cast == (Groupcast { keys: after.cast.keys, ..before.cast })
            &&& after.rest == before.rest
        } else {
            &&& R::invokes(&before.rest, &after.rest, resolved, fields, ctx, tag, a)
            &&& after.cast == before.cast
        }
    }

    /// Both clusters hear of it, and so does what answers for every other.
    open spec fn outlives(before: &Self, after: &Self, event: Lifecycle) -> bool {
        &&& exists|left: Groupcast<M, E, K, G>| #[trigger]
            Groupcast::outlives(&before.cast, &left, event) && GroupKeyManagement::outlives(
                &(GroupKeyManagement { keys: left.keys, table: before.table }),
                &after.management(),
                event,
            ) && after.cast == (Groupcast { keys: after.cast.keys, ..left })
        &&& R::outlives(&before.rest, &after.rest, event)
    }

    open spec fn unfit(&self, resolved: ResolvedCommand) -> Status {
        if resolved.cluster == groupcast::ID || resolved.cluster == group_key_management::ID {
            Status::Failure
        } else {
            self.rest.unfit(resolved)
        }
    }

    fn answer(&self, resolved: &Resolved, ctx: &InteractionContext, tag: Tag) -> (a: Result<Vec<u8>, Status>) {
        match resolved.cluster {
            groupcast::ID => self.cast.answer(resolved, ctx, tag),
            group_key_management::ID => GroupKeyManagement::<'a, T, K, G>::encode_attribute(
                &self.cast.keys,
                self.table,
                resolved.attribute,
                ctx,
                tag,
            ),
            _ => self.rest.answer(resolved, ctx, tag),
        }
    }

    fn write(&mut self, resolved: &Resolved, data: &[u8], op: WriteOp, ctx: &InteractionContext) -> (r: Result<(), Status>) {
        match resolved.cluster {
            groupcast::ID => self.cast.write(resolved, data, op, ctx),
            group_key_management::ID => {
                let mut c: GroupKeyManagement<'a, T, K, G> = self.lend();
                let r: Result<(), Status> = c.write(resolved, data, op, ctx);
                self.cast.exchange(&mut c.keys);
                r
            },
            _ => self.rest.write(resolved, data, op, ctx),
        }
    }

    fn perform(
        &mut self,
        resolved: &ResolvedCommand,
        fields: Option<&[u8]>,
        ctx: &InteractionContext,
        tag: Tag,
    ) -> (a: Result<Reply, StatusIb>) {
        match resolved.cluster {
            groupcast::ID => self.cast.perform(resolved, fields, ctx, tag),
            group_key_management::ID => {
                let mut c: GroupKeyManagement<'a, T, K, G> = self.lend();
                let a: Result<Reply, StatusIb> = c.perform(resolved, fields, ctx, tag);
                self.cast.exchange(&mut c.keys);
                a
            },
            _ => self.rest.perform(resolved, fields, ctx, tag),
        }
    }

    fn on_lifecycle(&mut self, event: Lifecycle) {
        self.cast.on_lifecycle(event);
        let ghost left = self.cast;
        let mut c: GroupKeyManagement<'a, T, K, G> = self.lend();
        c.on_lifecycle(event);
        self.cast.exchange(&mut c.keys);
        proof {
            assert(Groupcast::outlives(&old(self).cast, &left, event));
        }
        self.rest.on_lifecycle(event);
    }

    fn unfit_status(&self, resolved: &ResolvedCommand) -> (s: Status) {
        match resolved.cluster {
            groupcast::ID | group_key_management::ID => Status::Failure,
            _ => self.rest.unfit_status(resolved),
        }
    }

    fn data_version(&self, resolved: &Resolved) -> (v: Option<u32>)
        ensures
            if resolved.cluster == groupcast::ID || resolved.cluster == group_key_management::ID {
                v is None
            } else {
                call_ensures(R::data_version, (&self.rest, resolved), v)
            },
    {
        match resolved.cluster {
            groupcast::ID | group_key_management::ID => None,
            _ => self.rest.data_version(resolved),
        }
    }
}

/// A key set that Group Key Management was given is one that a group can be joined with, without
/// bringing a key.
pub proof fn law_a_written_key_set_can_be_joined<
    'a,
    T: GroupTable,
    R: ClusterHandler,
    const M: usize,
    const E: usize,
    const K: usize,
    const G: usize,
>(
    before: GroupCommunication<'a, T, R, M, E, K, G>,
    after: GroupCommunication<'a, T, R, M, E, K, G>,
    resolved: ResolvedCommand,
    fields: Option<Seq<u8>>,
    ctx: InteractionContext,
    tag: Tag,
)
    requires
        resolved.cluster == group_key_management::ID,
        resolved.command == group_key_management::KEY_SET_WRITE,
        GroupCommunication::<'a, T, R, M, E, K, G>::invokes(&before, &after, resolved, fields, ctx, tag, im::done()),
    ensures
        ctx.accessing() matches Some(fabric) && (group_key_management::written_set(fields, fabric) matches Ok(set)
            && groupcast::key_installed(after.cast.state().keys, after.cast.setup().limits, fabric, set.id, None) == (
            after.cast.state().keys,
            None::<Status>,
        )),
{
    let fabric = ctx.accessing()->Some_0;
    let set = group_key_management::written_set(fields, fabric)->Ok_0;
    group::law_a_written_key_set_is_read_back(before.cast.keys@, before.cast.keys.limits(), set);
}

/// A group that was joined through Groupcast is in the map that Group Key Management answers with,
/// and the key set that secures it can be read.
pub proof fn law_a_joined_group_is_in_the_key_map<
    'a,
    T: GroupTable,
    R: ClusterHandler,
    const M: usize,
    const E: usize,
    const K: usize,
    const G: usize,
>(
    before: GroupCommunication<'a, T, R, M, E, K, G>,
    after: GroupCommunication<'a, T, R, M, E, K, G>,
    later: GroupCommunication<'a, T, R, M, E, K, G>,
    resolved: ResolvedCommand,
    data: Seq<u8>,
    ctx: InteractionContext,
    tag: Tag,
    read: ResolvedCommand,
    fields: Option<Seq<u8>>,
    items: Seq<Element>,
    then: InteractionContext,
    read_tag: Tag,
    b: InvokeAnswer,
)
    requires
        resolved.cluster == groupcast::ID,
        resolved.command == groupcast::JOIN_GROUP,
        GroupCommunication::<'a, T, R, M, E, K, G>::invokes(&before, &after, resolved, Some(data), ctx, tag, im::done()),
        read.cluster == group_key_management::ID,
        read.command == group_key_management::KEY_SET_READ,
        fields::decode_some(fields, group_key_management::id_schema()) == Ok::<Seq<Element>, Status>(items),
        then.accessing() == ctx.accessing(),
        GroupCommunication::<'a, T, R, M, E, K, G>::invokes(&after, &later, read, fields, then, read_tag, b),
    ensures
        ctx.accessing() matches Some(fabric) && (groupcast::join_request(before.cast.setup(), data, ctx) matches Ok(j) && {
            let keys = after.management().keys@;
            &&& group::set_at(keys, fabric, j.key_set) matches Some(set) && (fields::num16(items, 0) == Some(j.key_set) ==> b
                == Ok::<(Option<CommandId>, Seq<u8>), StatusIb>(
                (
                    Some(group_key_management::KEY_SET_READ_RESPONSE),
                    group_key_management::read_response(set, read_tag),
                ),
            ))
            &&& bounded::first(keys.map, group::entry_is(fabric, j.group)) matches Some(i) && keys.map[i].key_set == j.key_set
        }),
{
    let fabric = ctx.accessing()->Some_0;
    let j = groupcast::join_request(before.cast.setup(), data, ctx)->Ok_0;
    groupcast::law_a_joined_group_is_ready(before.cast.state(), before.cast.setup(), fabric, j);
}

/// A fabric that leaves the node takes its groups and its keys along, and leaves those of the others.
pub proof fn law_a_fabric_takes_its_groups_along<
    'a,
    T: GroupTable,
    R: ClusterHandler,
    const M: usize,
    const E: usize,
    const K: usize,
    const G: usize,
>(
    before: GroupCommunication<'a, T, R, M, E, K, G>,
    after: GroupCommunication<'a, T, R, M, E, K, G>,
    fabric: FabricIndex,
)
    requires
        GroupCommunication::<'a, T, R, M, E, K, G>::outlives(&before, &after, Lifecycle::FabricRemoved(fabric)),
    ensures
        after.cast.state() == (groupcast::State {
            members: before.cast.state().members.filter(groupcast::not_of_fabric(fabric)),
            keys: group::fabric_removed(before.cast.state().keys, fabric),
        }),
        after.cast.same_setup(&before.cast),
        after.table == before.table,
{
}

/// Identify and Groups on one endpoint, and what answers for every other cluster.
///
/// Groups asks this Identify whether the endpoint is identifying itself.
pub struct IdentifyingGroups<H: IdentifyHooks, S: ScenePurge, R: ClusterHandler, const N: usize> {
    /// Identify.
    pub identify: Identify<H>,
    /// Groups, which is told what Identify says when it needs to know.
    pub table: Groups<N, IdentifyingNow, S>,
    /// What answers for every other cluster.
    pub rest: R,
}

impl<H: IdentifyHooks, S: ScenePurge, R: ClusterHandler, const N: usize> IdentifyingGroups<H, S, R, N> {
    /// Groups on what the endpoint's Identify says.
    pub open spec fn groups(&self) -> Groups<N, IdentifyingNow, S> {
        Groups { identifying: IdentifyingNow(self.identify.state.remaining > 0), ..self.table }
    }

    /// The clusters. From now on Groups asks this Identify, and not what it asked before.
    pub fn new<I: Identifying>(identify: Identify<H>, groups: Groups<N, I, S>, rest: R) -> (c: Self)
        ensures
            c.identify == identify,
            c.table.memberships == groups.memberships,
            c.table.per_fabric == groups.per_fabric,
            c.table.names == groups.names,
            c.table.scenes == groups.scenes,
            c.rest == rest,
    {
        let identifying: IdentifyingNow = IdentifyingNow(identify.is_identifying());
        let table: Groups<N, IdentifyingNow, S> = Groups {
            memberships: groups.memberships,
            per_fabric: groups.per_fabric,
            names: groups.names,
            identifying,
            scenes: groups.scenes,
        };
        IdentifyingGroups { identify, table, rest }
    }
}

impl<H: IdentifyHooks, S: ScenePurge, R: ClusterHandler, const N: usize> ClusterHandler for IdentifyingGroups<
    H,
    S,
    R,
    N,
> {
    open spec fn answers(&self, resolved: Resolved, ctx: InteractionContext, tag: Tag, a: ReadAnswer) -> bool {
        if resolved.cluster == identify::ID {
            self.identify.answers(resolved, ctx, tag, a)
        } else if resolved.cluster == groups::ID {
            self.groups().answers(resolved, ctx, tag, a)
        } else {
            self.rest.answers(resolved, ctx, tag, a)
        }
    }

    open spec fn writes(
        before: &Self,
        after: &Self,
        resolved: Resolved,
        data: Seq<u8>,
        op: WriteOp,
        ctx: InteractionContext,
        r: Result<(), Status>,
    ) -> bool {
        if resolved.cluster == identify::ID {
            &&& Identify::writes(&before.identify, &after.identify, resolved, data, op, ctx, r)
            &&& after.table == before.table
            &&& after.rest == before.rest
        } else if resolved.cluster == groups::ID {
            &&& Groups::writes(&before.groups(), &after.groups(), resolved, data, op, ctx, r)
            &&& after.identify == before.identify
            &&& after.rest == before.rest
        } else {
            &&& R::writes(&before.rest, &after.rest, resolved, data, op, ctx, r)
            &&& after.identify == before.identify
            &&& after.table == before.table
        }
    }

    open spec fn invokes(
        before: &Self,
        after: &Self,
        resolved: ResolvedCommand,
        fields: Option<Seq<u8>>,
        ctx: InteractionContext,
        tag: Tag,
        a: InvokeAnswer,
    ) -> bool {
        if resolved.cluster == identify::ID {
            &&& Identify::invokes(&before.identify, &after.identify, resolved, fields, ctx, tag, a)
            &&& after.table == before.table
            &&& after.rest == before.rest
        } else if resolved.cluster == groups::ID {
            &&& Groups::invokes(&before.groups(), &after.groups(), resolved, fields, ctx, tag, a)
            &&& after.identify == before.identify
            &&& after.rest == before.rest
        } else {
            &&& R::invokes(&before.rest, &after.rest, resolved, fields, ctx, tag, a)
            &&& after.identify == before.identify
            &&& after.table == before.table
        }
    }

    open spec fn outlives(before: &Self, after: &Self, event: Lifecycle) -> bool {
        &&& Groups::outlives(&before.groups(), &after.groups(), event)
        &&& after.identify == before.identify
        &&& R::outlives(&before.rest, &after.rest, event)
    }

    open spec fn unfit(&self, resolved: ResolvedCommand) -> Status {
        if resolved.cluster == identify::ID || resolved.cluster == groups::ID {
            Status::Failure
        } else {
            self.rest.unfit(resolved)
        }
    }

    fn answer(&self, resolved: &Resolved, ctx: &InteractionContext, tag: Tag) -> (a: Result<Vec<u8>, Status>) {
        match resolved.cluster {
            identify::ID => self.identify.answer(resolved, ctx, tag),
            groups::ID => groups::encode_attribute(self.table.names, resolved.attribute, tag),
            _ => self.rest.answer(resolved, ctx, tag),
        }
    }

    fn write(&mut self, resolved: &Resolved, data: &[u8], op: WriteOp, ctx: &InteractionContext) -> (r: Result<(), Status>) {
        match resolved.cluster {
            identify::ID => self.identify.write(resolved, data, op, ctx),
            groups::ID => Err(Status::UnsupportedWrite),
            _ => self.rest.write(resolved, data, op, ctx),
        }
    }

    fn perform(
        &mut self,
        resolved: &ResolvedCommand,
        fields: Option<&[u8]>,
        ctx: &InteractionContext,
        tag: Tag,
    ) -> (a: Result<Reply, StatusIb>) {
        match resolved.cluster {
            identify::ID => self.identify.perform(resolved, fields, ctx, tag),
            groups::ID => {
                self.table.identifying = IdentifyingNow(self.identify.is_identifying());
                self.table.perform(resolved, fields, ctx, tag)
            },
            _ => self.rest.perform(resolved, fields, ctx, tag),
        }
    }

    fn on_lifecycle(&mut self, event: Lifecycle) {
        self.table.identifying = IdentifyingNow(self.identify.is_identifying());
        self.table.on_lifecycle(event);
        self.rest.on_lifecycle(event);
    }

    fn unfit_status(&self, resolved: &ResolvedCommand) -> (s: Status) {
        match resolved.cluster {
            identify::ID | groups::ID => Status::Failure,
            _ => self.rest.unfit_status(resolved),
        }
    }

    fn data_version(&self, resolved: &Resolved) -> (v: Option<u32>)
        ensures
            if resolved.cluster == identify::ID || resolved.cluster == groups::ID {
                v is None
            } else {
                call_ensures(R::data_version, (&self.rest, resolved), v)
            },
    {
        match resolved.cluster {
            identify::ID | groups::ID => None,
            _ => self.rest.data_version(resolved),
        }
    }
}

/// What a command to Groups comes to on an endpoint depends on its Identify: `AddGroupIfIdentifying`
/// adds a group exactly while Identify counts, and Identify stays as it is.
pub proof fn law_groups_are_added_while_identifying<
    H: IdentifyHooks,
    S: ScenePurge,
    R: ClusterHandler,
    const N: usize,
>(
    before: IdentifyingGroups<H, S, R, N>,
    after: IdentifyingGroups<H, S, R, N>,
    resolved: ResolvedCommand,
    fields: Option<Seq<u8>>,
    ctx: InteractionContext,
    tag: Tag,
    a: InvokeAnswer,
)
    requires
        resolved.cluster == groups::ID,
        IdentifyingGroups::<H, S, R, N>::invokes(&before, &after, resolved, fields, ctx, tag, a),
    ensures
        ({
            let c = groups::commanded(
                before.table.memberships.models(),
                N as nat,
                before.table.per_fabric as nat,
                before.table.names,
                before.identify.state.remaining > 0,
                resolved.command,
                fields,
                ctx,
                tag,
            );
            &&& after.table.memberships.models() == c.0
            &&& a == c.2
            &&& after.table.scenes.forgotten() == groups::purged(before.table.scenes.forgotten(), c.1)
            &&& resolved.command == groups::ADD_GROUP_IF_IDENTIFYING && before.identify.state.remaining == 0
                ==> after.table.memberships.models() == before.table.memberships.models()
        }),
        after.identify == before.identify,
{
}

} // verus!
