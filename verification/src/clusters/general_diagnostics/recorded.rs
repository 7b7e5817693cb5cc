//! The device behind General Diagnostics, and the test events that it was told to fire.

use vstd::prelude::*;

use crate::clusters::general_diagnostics::{
    BootReason, DeviceLoad, Diagnostics, HardwareFault, NetworkFault, NetworkInterface, RadioFault,
};
use crate::crypto::SymmetricKey;
use crate::im::InteractionContext;

verus! {

/// A device, with the test events that it was told to fire since the cluster has it. It is told so
/// nowhere but through this, and each time is on record.
pub struct Recorded<'a, D: Diagnostics> {
    product: &'a D,
    tests: Ghost<Seq<(u64, bool)>>,
}

impl<'a, D: Diagnostics> Recorded<'a, D> {
    /// The device itself.
    pub closed spec fn product(&self) -> &'a D {
        self.product
    }

    /// The test events that it was told to fire, in order, each with whether it knew the event.
    pub closed spec fn tests(&self) -> Seq<(u64, bool)> {
        self.tests@
    }

    /// Whether it is the same device, told to fire one test event more.
    pub open spec fn tested(&self, before: &Self, trigger: u64, fired: bool) -> bool {
        self.product() == before.product() && self.tests() == before.tests().push((trigger, fired))
    }

    /// A device that was told nothing yet.
    pub fn new(product: &'a D) -> (d: Self)
        ensures
            d.product() == product,
            d.tests() == Seq::<(u64, bool)>::empty(),
    {
        Recorded { product, tests: Ghost(Seq::empty()) }
    }

    /// The interfaces.
    pub fn network_interfaces(&self) -> (r: Vec<NetworkInterface<'_>>)
        ensures
            call_ensures(D::network_interfaces, (self.product(),), r),
    {
        self.product.network_interfaces()
    }

    /// How often it started.
    pub fn reboot_count(&self) -> (r: u16)
        ensures
            call_ensures(D::reboot_count, (self.product(),), r),
    {
        self.product.reboot_count()
    }

    /// Seconds since it started.
    pub fn up_time(&self) -> (r: u64)
        ensures
            call_ensures(D::up_time, (self.product(),), r),
    {
        self.product.up_time()
    }

    /// Hours that it has been running in all.
    pub fn total_operational_hours(&self) -> (r: Option<u32>)
        ensures
            call_ensures(D::total_operational_hours, (self.product(),), r),
    {
        self.product.total_operational_hours()
    }

    /// Why it started.
    pub fn boot_reason(&self) -> (r: BootReason)
        ensures
            call_ensures(D::boot_reason, (self.product(),), r),
    {
        self.product.boot_reason()
    }

    /// What is wrong with the hardware.
    pub fn active_hardware_faults(&self) -> (r: Vec<HardwareFault>)
        ensures
            call_ensures(D::active_hardware_faults, (self.product(),), r),
    {
        self.product.active_hardware_faults()
    }

    /// What is wrong with the radios.
    pub fn active_radio_faults(&self) -> (r: Vec<RadioFault>)
        ensures
            call_ensures(D::active_radio_faults, (self.product(),), r),
    {
        self.product.active_radio_faults()
    }

    /// What is wrong with the network.
    pub fn active_network_faults(&self) -> (r: Vec<NetworkFault>)
        ensures
            call_ensures(D::active_network_faults, (self.product(),), r),
    {
        self.product.active_network_faults()
    }

    /// How hard it is working.
    pub fn device_load(&self, ctx: &InteractionContext) -> (r: Option<DeviceLoad>)
        ensures
            call_ensures(D::device_load, (self.product(), ctx), r),
    {
        self.product.device_load(ctx)
    }

    /// The key for the test commands.
    pub fn enable_key(&self) -> (r: Option<&'a SymmetricKey>)
        ensures
            call_ensures(D::enable_key, (self.product(),), r),
    {
        let product: &'a D = self.product;
        product.enable_key()
    }

    /// The time of day.
    pub fn posix_time_ms(&self) -> (r: Option<u64>)
        ensures
            call_ensures(D::posix_time_ms, (self.product(),), r),
    {
        self.product.posix_time_ms()
    }

    /// Fires a test event.
    pub fn test_event_trigger(&mut self, trigger: u64) -> (fired: bool)
        requires
            exists|k: &SymmetricKey| #[trigger] call_ensures(D::enable_key, (old(self).product(),), Some(k)),
        ensures
            call_ensures(D::test_event_trigger, (old(self).product(), trigger), fired),
            final(self).tested(old(self), trigger, fired),
    {
        let fired: bool = self.product.test_event_trigger(trigger);
        self.tests = Ghost(self.tests@.push((trigger, fired)));
        fired
    }
}

} // verus!
