//! The equipment behind Energy EVSE, and what it was told.

use vstd::prelude::*;

use crate::clusters::energy_evse::{EvseHooks, FaultStateEnum, Hardware, Readings, StateEnum};

verus! {

/// Something that equipment was told to do, and what it said to that.
pub enum Call {
    /// To stop any current.
    Disable(bool),
    /// To pass current between two bounds.
    EnableCharging(i64, i64, bool),
    /// To take current back up to a bound.
    EnableDischarging(i64, bool),
    /// To run diagnostics.
    StartDiagnostics(bool),
    /// That the targets changed.
    TargetsChanged,
}

/// Equipment, with what it was told since the cluster has it. It is told nothing but through this, and
/// each time is on record.
pub struct Equipment<H: EvseHooks> {
    product: H,
    calls: Ghost<Seq<Call>>,
}

impl<H: EvseHooks> Equipment<H> {
    /// The equipment itself.
    pub closed spec fn product(&self) -> H {
        self.product
    }

    /// What it was told, in order.
    pub closed spec fn calls(&self) -> Seq<Call> {
        self.calls@
    }

    /// Whether it is another that was told one thing more, or nothing, in which case it stays as it is.
    pub open spec fn called(&self, before: &Self, call: Option<Call>) -> bool {
        match call {
            Some(c) => self.calls() == before.calls().push(c),
            None => *self == *before,
        }
    }

    /// Equipment that was told nothing yet.
    pub fn new(product: H) -> (e: Self)
        ensures
            e.product() == product,
            e.calls() == Seq::<Call>::empty(),
    {
        Equipment { product, calls: Ghost(Seq::empty()) }
    }

    /// Whether the equipment, asked what a read may need, may say this.
    pub open spec fn reads(&self, hw: Readings) -> bool {
        &&& call_ensures(H::state, (&self.product(),), hw.state)
        &&& call_ensures(H::fault, (&self.product(),), hw.fault)
        &&& call_ensures(H::circuit_capacity, (&self.product(),), hw.circuit_capacity)
        &&& call_ensures(H::user_maximum_charge_current, (&self.product(),), hw.user_maximum)
        &&& call_ensures(H::randomization_delay_window, (&self.product(),), hw.delay_window)
        &&& call_ensures(H::next_charge, (&self.product(),), hw.next)
        &&& call_ensures(H::approximate_ev_efficiency, (&self.product(),), hw.efficiency)
        &&& call_ensures(H::state_of_charge, (&self.product(),), hw.state_of_charge)
        &&& call_ensures(H::battery_capacity, (&self.product(),), hw.battery_capacity)
        &&& call_ensures(H::vehicle_id, (&self.product(),), hw.vehicle_id)
        &&& call_ensures(H::session_id, (&self.product(),), hw.session_id)
        &&& call_ensures(H::session_duration, (&self.product(),), hw.session_duration)
        &&& call_ensures(H::session_energy_charged, (&self.product(),), hw.charged)
        &&& call_ensures(H::session_energy_discharged, (&self.product(),), hw.discharged)
    }

    /// Whether the equipment, asked what a command may need, may say this.
    pub open spec fn says(&self, hw: Hardware) -> bool {
        &&& call_ensures(H::state, (&self.product(),), hw.state)
        &&& call_ensures(H::fault, (&self.product(),), hw.fault)
        &&& call_ensures(H::utc, (&self.product(),), hw.utc)
    }

    /// What it says that a read may need.
    pub fn readings(&self) -> (hw: Readings)
        ensures
            self.reads(hw),
    {
        Readings {
            state: self.product.state(),
            fault: self.product.fault(),
            circuit_capacity: self.product.circuit_capacity(),
            user_maximum: self.product.user_maximum_charge_current(),
            delay_window: self.product.randomization_delay_window(),
            next: self.product.next_charge(),
            efficiency: self.product.approximate_ev_efficiency(),
            state_of_charge: self.product.state_of_charge(),
            battery_capacity: self.product.battery_capacity(),
            vehicle_id: self.product.vehicle_id(),
            session_id: self.product.session_id(),
            session_duration: self.product.session_duration(),
            charged: self.product.session_energy_charged(),
            discharged: self.product.session_energy_discharged(),
        }
    }

    /// What it says that a command may need.
    pub fn hardware(&self) -> (hw: Hardware)
        ensures
            self.says(hw),
    {
        Hardware { state: self.product.state(), fault: self.product.fault(), utc: self.product.utc() }
    }

    /// What the pilot signal says.
    pub fn state(&self) -> (r: Option<StateEnum>)
        ensures
            call_ensures(H::state, (&self.product(),), r),
    {
        self.product.state()
    }

    /// A fault, or none.
    pub fn fault(&self) -> (r: FaultStateEnum)
        ensures
            call_ensures(H::fault, (&self.product(),), r),
    {
        self.product.fault()
    }

    /// The time.
    pub fn utc(&self) -> (r: Option<u32>)
        ensures
            call_ensures(H::utc, (&self.product(),), r),
    {
        self.product.utc()
    }

    /// What the user allows.
    pub fn user_maximum_charge_current(&self) -> (r: i64)
        ensures
            call_ensures(H::user_maximum_charge_current, (&self.product(),), r),
    {
        self.product.user_maximum_charge_current()
    }

    /// Stops any current.
    pub fn disable(&mut self) -> (r: bool)
        ensures
            call_ensures(H::disable, (&old(self).product(),), r),
            final(self).called(old(self), Some(Call::Disable(r))),
            final(self).product() == old(self).product(),
    {
        let r: bool = self.product.disable();
        self.calls = Ghost(self.calls@.push(Call::Disable(r)));
        r
    }

    /// Passes current between two bounds.
    pub fn enable_charging(&mut self, minimum_ma: i64, maximum_ma: i64) -> (r: bool)
        requires
            call_ensures(H::fault, (&old(self).product(),), FaultStateEnum::NoError),
            0 <= minimum_ma <= maximum_ma,
        ensures
            call_ensures(H::enable_charging, (&old(self).product(), minimum_ma, maximum_ma), r),
            final(self).called(old(self), Some(Call::EnableCharging(minimum_ma, maximum_ma, r))),
            final(self).product() == old(self).product(),
    {
        let r: bool = self.product.enable_charging(minimum_ma, maximum_ma);
        self.calls = Ghost(self.calls@.push(Call::EnableCharging(minimum_ma, maximum_ma, r)));
        r
    }

    /// Takes current back up to a bound.
    pub fn enable_discharging(&mut self, maximum_ma: i64) -> (r: bool)
        requires
            call_ensures(H::fault, (&old(self).product(),), FaultStateEnum::NoError),
            0 <= maximum_ma,
        ensures
            call_ensures(H::enable_discharging, (&old(self).product(), maximum_ma), r),
            final(self).called(old(self), Some(Call::EnableDischarging(maximum_ma, r))),
            final(self).product() == old(self).product(),
    {
        let r: bool = self.product.enable_discharging(maximum_ma);
        self.calls = Ghost(self.calls@.push(Call::EnableDischarging(maximum_ma, r)));
        r
    }

    /// Runs diagnostics.
    pub fn start_diagnostics(&mut self) -> (r: bool)
        requires
            call_ensures(H::fault, (&old(self).product(),), FaultStateEnum::NoError),
        ensures
            call_ensures(H::start_diagnostics, (&old(self).product(),), r),
            final(self).called(old(self), Some(Call::StartDiagnostics(r))),
            final(self).product() == old(self).product(),
    {
        let r: bool = self.product.start_diagnostics();
        self.calls = Ghost(self.calls@.push(Call::StartDiagnostics(r)));
        r
    }

    /// The targets changed.
    pub fn targets_changed(&mut self)
        ensures
            final(self).called(old(self), Some(Call::TargetsChanged)),
            final(self).product().told() == old(self).product().told() + 1,
    {
        self.product.targets_changed();
        self.calls = Ghost(self.calls@.push(Call::TargetsChanged));
    }
}

} // verus!
