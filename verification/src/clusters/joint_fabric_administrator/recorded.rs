//! The product behind Joint Fabric Administrator, and what it was told.

use vstd::prelude::*;

use crate::clusters::joint_fabric_administrator;
use crate::clusters::joint_fabric_administrator::{AnchorTransfer, ICACResponseStatusEnum, JointFabricHooks};
use crate::im::{EndpointId, Status};
use crate::msg::FabricIndex;

verus! {

/// Something that a product was told, and what it said to that.
pub enum Call {
    /// To make a signing request for its own intermediate key.
    Csr(Result<Seq<u8>, Status>),
    /// To install a certificate for a fabric.
    Install(Seq<u8>, FabricIndex, Result<(), Status>),
    /// That the anchor role was given up.
    Transferred,
    /// Where a peer's cluster of this kind is.
    Announced(EndpointId),
}

/// A product, with what it was told since the cluster has it. It is told nothing but through this, and
/// each time is on record.
pub struct Recorded<'a, H: JointFabricHooks> {
    product: &'a H,
    calls: Ghost<Seq<Call>>,
}

impl<'a, H: JointFabricHooks> Recorded<'a, H> {
    /// The product itself.
    pub closed spec fn product(&self) -> &'a H {
        self.product
    }

    /// What it was told, in order.
    pub closed spec fn calls(&self) -> Seq<Call> {
        self.calls@
    }

    /// Whether it is the same product, told one thing more.
    pub open spec fn called(&self, before: &Self, call: Call) -> bool {
        self.product() == before.product() && self.calls() == before.calls().push(call)
    }

    /// A product that was told nothing yet.
    pub fn new(product: &'a H) -> (h: Self)
        ensures
            h.product() == product,
            h.calls() == Seq::<Call>::empty(),
    {
        Recorded { product, calls: Ghost(Seq::empty()) }
    }

    /// The product with its record, which goes along.
    pub(crate) fn take(&mut self) -> (h: Self)
        ensures
            h == *old(self),
            final(self).product() == old(self).product(),
            final(self).calls() == Seq::<Call>::empty(),
    {
        let calls: Ghost<Seq<Call>> = Ghost(self.calls@);
        self.calls = Ghost(Seq::empty());
        Recorded { product: self.product, calls }
    }

    /// What is wrong with a certificate, or that nothing is.
    pub fn validate_icac(&self, icac: &[u8], fabric: FabricIndex) -> (r: ICACResponseStatusEnum)
        ensures
            call_ensures(H::validate_icac, (self.product(), icac, fabric), r),
    {
        self.product.validate_icac(icac, fabric)
    }

    /// Whether octets are a passcode verifier.
    pub fn is_verifier(&self, verifier: &[u8]) -> (r: bool)
        ensures
            call_ensures(H::is_verifier, (self.product(), verifier), r),
    {
        self.product.is_verifier(verifier)
    }

    /// Whether the anchor role is given up.
    pub fn anchor_transfer(&self) -> (r: AnchorTransfer)
        ensures
            call_ensures(H::anchor_transfer, (self.product(),), r),
    {
        self.product.anchor_transfer()
    }

    /// A signing request for the product's own intermediate key.
    pub fn write_icac_csr(&mut self) -> (r: Result<Vec<u8>, Status>)
        ensures
            call_ensures(H::write_icac_csr, (old(self).product(),), r),
            final(self).called(old(self), Call::Csr(joint_fabric_administrator::made(r))),
    {
        let r: Result<Vec<u8>, Status> = self.product.write_icac_csr();
        self.calls = Ghost(self.calls@.push(Call::Csr(joint_fabric_administrator::made(r))));
        r
    }

    /// Installs a certificate that the product said nothing is wrong with.
    pub fn install_icac(&mut self, icac: &[u8], fabric: FabricIndex) -> (r: Result<(), Status>)
        requires
            call_ensures(H::validate_icac, (old(self).product(), icac, fabric), ICACResponseStatusEnum::OK),
        ensures
            call_ensures(H::install_icac, (old(self).product(), icac, fabric), r),
            final(self).called(old(self), Call::Install(icac@, fabric, r)),
    {
        let r: Result<(), Status> = self.product.install_icac(icac, fabric);
        self.calls = Ghost(self.calls@.push(Call::Install(icac@, fabric, r)));
        r
    }

    /// The anchor role was given up.
    pub fn anchor_transferred(&mut self)
        ensures
            call_ensures(H::anchor_transferred, (old(self).product(),), ()),
            final(self).called(old(self), Call::Transferred),
    {
        self.product.anchor_transferred();
        self.calls = Ghost(self.calls@.push(Call::Transferred));
    }

    /// A peer said where its cluster of this kind is.
    pub fn administrator_announced(&mut self, endpoint: EndpointId)
        ensures
            call_ensures(H::administrator_announced, (old(self).product(), endpoint), ()),
            final(self).called(old(self), Call::Announced(endpoint)),
    {
        self.product.administrator_announced(endpoint);
        self.calls = Ghost(self.calls@.push(Call::Announced(endpoint)));
    }
}

} // verus!
