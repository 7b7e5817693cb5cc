//! The device behind Level Control, and the frequencies that it was told to go over to.

use vstd::prelude::*;

use crate::clusters::level_control::LevelControlHooks;

verus! {

/// A device, with the frequencies that it was told to go over to since the cluster has it. It is told
/// so nowhere but through this, and each time is on record.
pub struct Recorded<H: LevelControlHooks> {
    product: H,
    frequencies: Ghost<Seq<(u16, bool)>>,
}

impl<H: LevelControlHooks> Recorded<H> {
    /// The device itself.
    pub closed spec fn product(&self) -> H {
        self.product
    }

    /// The frequencies that it was told, in order, each with whether it went over.
    pub closed spec fn frequencies(&self) -> Seq<(u16, bool)> {
        self.frequencies@
    }

    /// The levels that it was told, in order.
    pub open spec fn shown(&self) -> Seq<Option<u8>> {
        self.product().shown()
    }

    /// Whether it is the same device, told one frequency more.
    pub open spec fn tuned(&self, before: &Self, frequency: u16, tunable: bool) -> bool {
        self.product() == before.product() && self.frequencies() == before.frequencies().push((frequency, tunable))
    }

    /// A device that was told nothing yet.
    pub fn new(product: H) -> (d: Self)
        ensures
            d.product() == product,
            d.frequencies() == Seq::<(u16, bool)>::empty(),
    {
        Recorded { product, frequencies: Ghost(Seq::empty()) }
    }

    /// The level is this.
    pub fn level(&mut self, level: Option<u8>)
        ensures
            final(self).shown() == old(self).shown().push(level),
            final(self).frequencies() == old(self).frequencies(),
    {
        self.product.level(level);
    }

    /// Goes over to a frequency or to one close to it, where it can.
    pub fn frequency(&mut self, frequency: u16) -> (tunable: bool)
        ensures
            call_ensures(H::frequency, (&old(self).product(), frequency), tunable),
            final(self).tuned(old(self), frequency, tunable),
    {
        let tunable: bool = self.product.frequency(frequency);
        self.frequencies = Ghost(self.frequencies@.push((frequency, tunable)));
        tunable
    }
}

} // verus!
