//! The appliance behind Device Energy Management, and what it was told.

use vstd::prelude::*;

use crate::clusters::device_energy_management;
use crate::clusters::device_energy_management::{Action, Appliance, CauseEnum, DemHooks, ESAStateEnum, ESATypeEnum};
use crate::im::Status;
use crate::tlv::Tag;

verus! {

/// Something that an appliance was told, and what it said to that.
pub enum Call {
    /// To do what a command asks.
    Act(Action, Result<(), Status>),
    /// That its adjustment ended.
    Ended(CauseEnum),
    /// That its pause is over.
    Resumed(Result<(), Status>),
}

/// An appliance, with what it was told since the cluster has it. It is told nothing but through this,
/// and each time is on record.
pub struct Recorded<'a, H: DemHooks> {
    product: &'a H,
    calls: Ghost<Seq<Call>>,
}

impl<'a, H: DemHooks> Recorded<'a, H> {
    /// The appliance itself.
    pub closed spec fn product(&self) -> &'a H {
        self.product
    }

    /// What it was told, in order.
    pub closed spec fn calls(&self) -> Seq<Call> {
        self.calls@
    }

    /// Whether it is the same appliance, told one thing more.
    pub open spec fn called(&self, before: &Self, call: Call) -> bool {
        self.product() == before.product() && self.calls() == before.calls().push(call)
    }

    /// An appliance that was told nothing yet.
    pub fn new(product: &'a H) -> (e: Self)
        ensures
            e.product() == product,
            e.calls() == Seq::<Call>::empty(),
    {
        Recorded { product, calls: Ghost(Seq::empty()) }
    }

    /// Whether the appliance, asked what a command has to be held against, may say this.
    pub open spec fn says(&self, ap: Appliance) -> bool {
        &&& call_ensures(H::base_state, (self.product(),), ap.base_state)
        &&& call_ensures(H::opt_out_state, (self.product(),), ap.opt_out)
        &&& call_ensures(H::power_adjust_ranges, (self.product(),), ap.ranges)
        &&& call_ensures(H::may_interrupt_adjustment, (self.product(),), ap.may_interrupt)
        &&& call_ensures(H::forecast, (self.product(),), ap.forecast)
    }

    /// Whether the appliance, told to do what a command asks, may answer this.
    pub open spec fn does(&self, action: Action, outcome: Result<(), Status>) -> bool {
        match action {
            Action::PowerAdjust(power, duration, cause) => call_ensures(
                H::power_adjust,
                (self.product(), power, duration, cause),
                outcome,
            ),
            Action::CancelPowerAdjust => call_ensures(H::end_power_adjust, (self.product(), CauseEnum::Cancelled), ())
                && outcome == Ok::<(), Status>(()),
            Action::AdjustStart(start, cause) => call_ensures(H::adjust_start_time, (self.product(), start, cause), outcome),
            Action::Pause(duration, cause) => call_ensures(H::pause, (self.product(), duration, cause), outcome),
            Action::Resume => call_ensures(H::resume, (self.product(),), outcome),
            Action::ModifyForecast(slots, cause) => call_ensures(H::modify_forecast, (self.product(), &slots, cause), outcome),
            Action::Constrain(constraints, cause) => call_ensures(
                H::constraint_based_forecast,
                (self.product(), &constraints, cause),
                outcome,
            ),
            Action::CancelAdjustments => call_ensures(H::cancel_adjustments, (self.product(),), outcome),
        }
    }

    /// What it says that a command has to be held against.
    pub fn ask(&self) -> (ap: Appliance)
        ensures
            self.says(ap),
    {
        Appliance {
            base_state: self.product.base_state(),
            opt_out: self.product.opt_out_state(),
            ranges: self.product.power_adjust_ranges(),
            may_interrupt: self.product.may_interrupt_adjustment(),
            forecast: self.product.forecast(),
        }
    }

    /// Its own state.
    pub fn base_state(&self) -> (r: ESAStateEnum)
        ensures
            call_ensures(H::base_state, (self.product(),), r),
    {
        self.product.base_state()
    }

    /// What kind of appliance it is.
    pub fn esa_type(&self) -> (r: ESATypeEnum)
        ensures
            call_ensures(H::esa_type, (self.product(),), r),
    {
        self.product.esa_type()
    }

    /// Whether it can give power as well as take it.
    pub fn can_generate(&self) -> (r: bool)
        ensures
            call_ensures(H::can_generate, (self.product(),), r),
    {
        self.product.can_generate()
    }

    /// The least power it draws.
    pub fn abs_min_power(&self) -> (r: i64)
        ensures
            call_ensures(H::abs_min_power, (self.product(),), r),
    {
        self.product.abs_min_power()
    }

    /// The most power it draws.
    pub fn abs_max_power(&self) -> (r: i64)
        ensures
            call_ensures(H::abs_max_power, (self.product(),), r),
    {
        self.product.abs_max_power()
    }

    /// The `Forecast` attribute, encoded under a tag.
    pub fn write_forecast(&self, tag: Tag) -> (r: Vec<u8>)
        ensures
            call_ensures(H::write_forecast, (self.product(), tag), r),
    {
        self.product.write_forecast(tag)
    }

    /// Has the appliance do what a command asks, where what it said warrants that.
    pub fn act(&mut self, ap: &Appliance, action: &Action) -> (outcome: Result<(), Status>)
        requires
            old(self).says(*ap),
            device_energy_management::warranted(*ap, *action),
        ensures
            old(self).does(*action, outcome),
            final(self).called(old(self), Call::Act(*action, outcome)),
    {
        let outcome: Result<(), Status> = match action {
            Action::PowerAdjust(power, duration, cause) => self.product.power_adjust(*power, *duration, *cause),
            Action::CancelPowerAdjust => {
                self.product.end_power_adjust(CauseEnum::Cancelled);
                Ok(())
            },
            Action::AdjustStart(start, cause) => self.product.adjust_start_time(*start, *cause),
            Action::Pause(duration, cause) => self.product.pause(*duration, *cause),
            Action::Resume => self.product.resume(),
            Action::ModifyForecast(slots, cause) => self.product.modify_forecast(slots, *cause),
            Action::Constrain(constraints, cause) => self.product.constraint_based_forecast(constraints, *cause),
            Action::CancelAdjustments => self.product.cancel_adjustments(),
        };
        self.calls = Ghost(self.calls@.push(Call::Act(*action, outcome)));
        outcome
    }

    /// The adjustment ended.
    pub fn end_power_adjust(&mut self, cause: CauseEnum)
        ensures
            call_ensures(H::end_power_adjust, (old(self).product(), cause), ()),
            final(self).called(old(self), Call::Ended(cause)),
    {
        self.product.end_power_adjust(cause);
        self.calls = Ghost(self.calls@.push(Call::Ended(cause)));
    }

    /// Goes on after a pause.
    pub fn resume(&mut self) -> (r: Result<(), Status>)
        ensures
            call_ensures(H::resume, (old(self).product(),), r),
            final(self).called(old(self), Call::Resumed(r)),
    {
        let r: Result<(), Status> = self.product.resume();
        self.calls = Ghost(self.calls@.push(Call::Resumed(r)));
        r
    }
}

} // verus!
