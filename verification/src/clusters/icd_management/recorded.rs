//! The device behind ICD Management, and what it was asked to promise.

use vstd::prelude::*;

use crate::clusters::icd_management::StayActive;

verus! {

/// A device, with what it was asked to promise since the cluster has it. It is asked nowhere but
/// through this, and each time is on record.
pub struct Recorded<A: StayActive> {
    product: A,
    promises: Ghost<Seq<(u32, u32)>>,
}

impl<A: StayActive> Recorded<A> {
    /// The device itself.
    pub closed spec fn product(&self) -> A {
        self.product
    }

    /// How long it was asked to stay awake, in order, each time with how long it promised.
    pub closed spec fn promises(&self) -> Seq<(u32, u32)> {
        self.promises@
    }

    /// Whether it is the same device, asked once more.
    pub open spec fn asked(&self, before: &Self, requested: u32, promised: u32) -> bool {
        self.product() == before.product() && self.promises() == before.promises().push((requested, promised))
    }

    /// A device that was asked nothing yet.
    pub fn new(product: A) -> (d: Self)
        ensures
            d.product() == product,
            d.promises() == Seq::<(u32, u32)>::empty(),
    {
        Recorded { product, promises: Ghost(Seq::empty()) }
    }

    /// The milliseconds that it promises when asked for some.
    pub fn promise(&mut self, requested: u32) -> (promised: u32)
        ensures
            call_ensures(A::promise, (&old(self).product(), requested), promised),
            final(self).asked(old(self), requested, promised),
    {
        let promised: u32 = self.product.promise(requested);
        self.promises = Ghost(self.promises@.push((requested, promised)));
        promised
    }
}

} // verus!
