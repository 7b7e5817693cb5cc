//! The interface behind Ethernet Network Diagnostics, and how often its counters were reset.

use vstd::prelude::*;

use crate::clusters::ethernet_network_diagnostics::{EthernetDriver, PHYRateEnum, Reading};

verus! {

/// An interface, with how often its counters were set to zero since the cluster has it. That happens
/// nowhere but through this, and each time is counted.
pub struct Recorded<'a, D: EthernetDriver> {
    product: &'a D,
    resets: Ghost<nat>,
}

impl<'a, D: EthernetDriver> Recorded<'a, D> {
    /// The interface itself.
    pub closed spec fn product(&self) -> &'a D {
        self.product
    }

    /// How often its counters were set to zero.
    pub closed spec fn resets(&self) -> nat {
        self.resets@
    }

    /// Whether it is the same interface, reset once more.
    pub open spec fn reset(&self, before: &Self) -> bool {
        self.product() == before.product() && self.resets() == before.resets() + 1
    }

    /// An interface that was not reset yet.
    pub fn new(product: &'a D) -> (d: Self)
        ensures
            d.product() == product,
            d.resets() == 0,
    {
        Recorded { product, resets: Ghost(0) }
    }

    /// How fast the link is.
    pub fn phy_rate(&self) -> (r: Reading<PHYRateEnum>)
        ensures
            call_ensures(D::phy_rate, (self.product(),), r),
    {
        self.product.phy_rate()
    }

    /// Whether it sends and receives at once.
    pub fn full_duplex(&self) -> (r: Reading<bool>)
        ensures
            call_ensures(D::full_duplex, (self.product(),), r),
    {
        self.product.full_duplex()
    }

    /// Packets received.
    pub fn packet_rx_count(&self) -> (r: u64)
        ensures
            call_ensures(D::packet_rx_count, (self.product(),), r),
    {
        self.product.packet_rx_count()
    }

    /// Packets sent.
    pub fn packet_tx_count(&self) -> (r: u64)
        ensures
            call_ensures(D::packet_tx_count, (self.product(),), r),
    {
        self.product.packet_tx_count()
    }

    /// Packets that could not be sent.
    pub fn tx_err_count(&self) -> (r: u64)
        ensures
            call_ensures(D::tx_err_count, (self.product(),), r),
    {
        self.product.tx_err_count()
    }

    /// Collisions.
    pub fn collision_count(&self) -> (r: u64)
        ensures
            call_ensures(D::collision_count, (self.product(),), r),
    {
        self.product.collision_count()
    }

    /// Packets that there was no memory for.
    pub fn overrun_count(&self) -> (r: u64)
        ensures
            call_ensures(D::overrun_count, (self.product(),), r),
    {
        self.product.overrun_count()
    }

    /// Whether there is a carrier.
    pub fn carrier_detect(&self) -> (r: Reading<bool>)
        ensures
            call_ensures(D::carrier_detect, (self.product(),), r),
    {
        self.product.carrier_detect()
    }

    /// Minutes since the interface was reset.
    pub fn time_since_reset(&self) -> (r: Option<u64>)
        ensures
            call_ensures(D::time_since_reset, (self.product(),), r),
    {
        self.product.time_since_reset()
    }

    /// Sets the counters to zero.
    pub fn reset_counts(&mut self)
        ensures
            call_ensures(D::reset_counts, (old(self).product(),), ()),
            final(self).reset(old(self)),
    {
        self.product.reset_counts();
        self.resets = Ghost(self.resets@ + 1);
    }
}

} // verus!
