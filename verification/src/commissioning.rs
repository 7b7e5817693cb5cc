//! What commissioning leaves open: the fail-safe that undoes it, and the window that lets it in.

use vstd::prelude::*;

use crate::msg::{FabricIndex, VendorId};
use crate::platform;
use crate::platform::{Duration, Instant};

verus! {

/// How long the fail-safe is armed where a request does not say, in seconds.
pub const DEFAULT_EXPIRY_SECONDS: u16 = 900;

/// The length of a passcode verifier.
pub const PAKE_VERIFIER_LEN: usize = 97;

/// What a step of commissioning is answered with.
#[derive(Debug, Clone, Copy, PartialEq, Eq, Structural)]
pub enum CommissioningError {
    /// It was done.
    Success,
    /// A value is not possible here.
    ValueOutsideRange,
    /// It came from where it must not come from.
    InvalidAuthentication,
    /// The fail-safe is not armed.
    NoFailSafe,
    /// Another administrator is at it.
    BusyWithOtherAdmin,
}

/// The number of an answer.
pub open spec fn error_value(e: CommissioningError) -> u8 {
    match e {
        CommissioningError::Success => 0,
        CommissioningError::ValueOutsideRange => 1,
        CommissioningError::InvalidAuthentication => 2,
        CommissioningError::NoFailSafe => 3,
        CommissioningError::BusyWithOtherAdmin => 4,
    }
}

impl CommissioningError {
    /// Its number.
    pub fn value(self) -> (v: u8)
        ensures
            v == error_value(self),
    {
        match self {
            CommissioningError::Success => 0,
            CommissioningError::ValueOutsideRange => 1,
            CommissioningError::InvalidAuthentication => 2,
            CommissioningError::NoFailSafe => 3,
            CommissioningError::BusyWithOtherAdmin => 4,
        }
    }

    /// Whether it was done.
    pub fn is_ok(self) -> (r: bool)
        ensures
            r == (self is Success),
    {
        matches!(self, CommissioningError::Success)
    }
}

/// How long the fail-safe can be armed.
#[derive(Debug, Clone, Copy, PartialEq, Eq, Structural)]
pub struct BasicCommissioningInfo {
    /// For the first time, in seconds.
    pub expiry_length_seconds: u16,
    /// In all, in seconds.
    pub max_cumulative_seconds: u16,
}

/// What has to be undone when a fail-safe ends without completion.
#[derive(Debug, Clone, Copy, PartialEq, Eq, Structural)]
pub struct Cleanup {
    /// The fabric that the fail-safe was armed for, where there was one.
    pub fabric_index: Option<FabricIndex>,
    /// The fabric that was added.
    pub added: Option<FabricIndex>,
    /// The fabric whose certificate was replaced.
    pub updated: Option<FabricIndex>,
    /// Whether a root certificate was added.
    pub root_added: bool,
}

/// An armed fail-safe.
#[derive(Debug, Clone, Copy, PartialEq, Eq, Structural)]
pub struct Armed {
    /// The fabric that it is armed for; none over a session that has no fabric.
    pub fabric_index: Option<FabricIndex>,
    /// When it lapses.
    pub deadline: Instant,
    /// When it lapses however often it is armed again.
    pub limit: Instant,
    /// The fabric that was added.
    pub added: Option<FabricIndex>,
    /// The fabric whose certificate was replaced.
    pub updated: Option<FabricIndex>,
    /// Whether a root certificate was added.
    pub root_added: bool,
}

/// A step of commissioning that a fail-safe remembers.
#[derive(Debug, Clone, Copy, PartialEq, Eq, Structural)]
pub enum Progress {
    /// A root certificate was added.
    RootAdded,
    /// A fabric was added.
    NocAdded(FabricIndex),
    /// A fabric's certificate was replaced.
    NocUpdated(FabricIndex),
}

/// The node's fail-safe.
#[derive(Debug, Clone, Copy, PartialEq, Eq, Structural)]
pub struct FailSafe {
    /// How long it can be armed.
    pub info: BasicCommissioningInfo,
    /// How far the commissioner has come, in its own terms.
    pub breadcrumb: u64,
    /// What it is armed for, also when that has lapsed.
    pub context: Option<Armed>,
}

/// The earlier of two moments.
pub open spec fn earlier(a: Instant, b: Instant) -> Instant {
    if a.micros <= b.micros {
        a
    } else {
        b
    }
}

/// What an armed fail-safe has to undo.
pub open spec fn cleanup_of(a: Armed) -> Cleanup {
    Cleanup { fabric_index: a.fabric_index, added: a.added, updated: a.updated, root_added: a.root_added }
}

/// What is armed at a moment.
pub open spec fn held(f: FailSafe, now: Instant) -> Option<Armed> {
    match f.context {
        Some(a) => if now.micros < a.deadline.micros { Some(a) } else { None },
        None => None,
    }
}

/// What ending the fail-safe comes to, where it is armed or has lapsed.
pub open spec fn ended(f: FailSafe) -> (FailSafe, Option<Cleanup>) {
    match f.context {
        Some(a) => (FailSafe { context: None, breadcrumb: 0, ..f }, Some(cleanup_of(a))),
        None => (f, None),
    }
}

/// What has lapsed by a moment, ended.
pub open spec fn lapsed(f: FailSafe, now: Instant) -> (FailSafe, Option<Cleanup>) {
    if held(f, now) is Some {
        (f, None)
    } else {
        ended(f)
    }
}

/// A number of seconds after a moment.
pub open spec fn seconds_after(t: Instant, seconds: int) -> Instant {
    platform::later(t, seconds * 1_000_000)
}

/// What arming comes to: what the fail-safe is then, the answer, and what is to be undone.
///
/// Only the fabric that armed it can arm it again or end it, and it never lasts beyond its limit.
/// Where it is not armed, an open window keeps it for the commissioner that the window is for.
pub open spec fn armed(
    f: FailSafe,
    seconds: u16,
    breadcrumb: u64,
    fabric: Option<FabricIndex>,
    now: Instant,
    window_has_priority: bool,
) -> (FailSafe, CommissioningError, Option<Cleanup>) {
    let (g, cleanup) = lapsed(f, now);
    match g.context {
        Some(a) => if a.fabric_index != fabric {
            (g, CommissioningError::BusyWithOtherAdmin, cleanup)
        } else if seconds == 0 {
            (ended(g).0, CommissioningError::Success, ended(g).1)
        } else {
            (
                FailSafe {
                    context: Some(Armed { deadline: earlier(seconds_after(now, seconds as int), a.limit), ..a }),
                    breadcrumb,
                    ..g
                },
                CommissioningError::Success,
                cleanup,
            )
        },
        None => if window_has_priority {
            (g, CommissioningError::BusyWithOtherAdmin, cleanup)
        } else if seconds == 0 {
            (g, CommissioningError::Success, cleanup)
        } else {
            let limit = seconds_after(now, g.info.max_cumulative_seconds as int);
            (
                FailSafe {
                    context: Some(
                        Armed {
                            fabric_index: fabric,
                            deadline: earlier(seconds_after(now, seconds as int), limit),
                            limit,
                            added: None,
                            updated: None,
                            root_added: false,
                        },
                    ),
                    breadcrumb,
                    ..g
                },
                CommissioningError::Success,
                cleanup,
            )
        },
    }
}

/// What completion comes to: it has to come over an operational session of the fabric that the
/// fail-safe is armed for.
pub open spec fn completed(f: FailSafe, over_case: bool, fabric: Option<FabricIndex>, now: Instant) -> (
    FailSafe,
    CommissioningError,
    Option<Cleanup>,
) {
    let (g, cleanup) = lapsed(f, now);
    if !over_case {
        (g, CommissioningError::InvalidAuthentication, cleanup)
    } else {
        match g.context {
            None => (g, CommissioningError::NoFailSafe, cleanup),
            Some(a) => if a.fabric_index != fabric {
                (g, CommissioningError::InvalidAuthentication, cleanup)
            } else {
                (FailSafe { context: None, breadcrumb: 0, ..g }, CommissioningError::Success, cleanup)
            },
        }
    }
}

/// A fail-safe after a step of commissioning; a fabric that was added takes it over.
pub open spec fn progressed(a: Armed, p: Progress) -> Armed {
    match p {
        Progress::RootAdded => Armed { root_added: true, ..a },
        Progress::NocAdded(fabric) => Armed { fabric_index: Some(fabric), added: Some(fabric), ..a },
        Progress::NocUpdated(fabric) => Armed { updated: Some(fabric), ..a },
    }
}

fn sooner(a: Instant, b: Instant) -> (t: Instant)
    ensures
        t == earlier(a, b),
{
    if a.micros <= b.micros {
        a
    } else {
        b
    }
}

fn after_seconds(t: Instant, seconds: u16) -> (later: Instant)
    ensures
        later == seconds_after(t, seconds as int),
{
    t.saturating_add(Duration::from_secs(seconds as u32))
}

/// Whether two fabrics are the same, or both none.
pub fn same_fabric(a: Option<FabricIndex>, b: Option<FabricIndex>) -> (r: bool)
    ensures
        r == (a == b),
{
    match (a, b) {
        (Some(a), Some(b)) => a.0 == b.0,
        (None, None) => true,
        _ => false,
    }
}

impl FailSafe {
    /// A fail-safe that is not armed.
    pub fn new(info: BasicCommissioningInfo) -> (f: Self)
        ensures
            f == (FailSafe { info, breadcrumb: 0, context: None }),
    {
        FailSafe { info, breadcrumb: 0, context: None }
    }

    /// How long it can be armed.
    pub fn info(&self) -> (info: BasicCommissioningInfo)
        ensures
            info == self.info,
    {
        self.info
    }

    /// How far the commissioner has come.
    pub fn breadcrumb(&self) -> (b: u64)
        ensures
            b == self.breadcrumb,
    {
        self.breadcrumb
    }

    /// Notes how far the commissioner has come.
    pub fn set_breadcrumb(&mut self, breadcrumb: u64)
        ensures
            *final(self) == (FailSafe { breadcrumb, ..*old(self) }),
    {
        self.breadcrumb = breadcrumb;
    }

    /// What is armed at a moment.
    pub fn armed(&self, now: Instant) -> (a: Option<Armed>)
        ensures
            a == held(*self, now),
    {
        match self.context {
            Some(a) => if now.micros < a.deadline.micros {
                Some(a)
            } else {
                None
            },
            None => None,
        }
    }

    /// Whether it is armed at a moment.
    pub fn is_armed(&self, now: Instant) -> (r: bool)
        ensures
            r == (held(*self, now) is Some),
    {
        self.armed(now).is_some()
    }

    /// When there is something to expire.
    pub fn next_deadline(&self) -> (t: Option<Instant>)
        ensures
            t == match self.context {
                Some(a) => Some(a.deadline),
                None => None::<Instant>,
            },
    {
        match self.context {
            Some(a) => Some(a.deadline),
            None => None,
        }
    }

    /// Ends it, armed or lapsed.
    pub fn end(&mut self) -> (c: Option<Cleanup>)
        ensures
            (*final(self), c) == ended(*old(self)),
    {
        match self.context {
            None => None,
            Some(a) => {
                self.context = None;
                self.breadcrumb = 0;
                Some(Cleanup { fabric_index: a.fabric_index, added: a.added, updated: a.updated, root_added: a.root_added })
            },
        }
    }

    /// Ends what has lapsed by a moment.
    pub fn expire(&mut self, now: Instant) -> (c: Option<Cleanup>)
        ensures
            (*final(self), c) == lapsed(*old(self), now),
    {
        if self.is_armed(now) {
            return None;
        }
        self.end()
    }

    /// Arms it, arms it again, or ends it where `seconds` is zero.
    pub fn arm(
        &mut self,
        seconds: u16,
        breadcrumb: u64,
        fabric: Option<FabricIndex>,
        now: Instant,
        window_has_priority: bool,
    ) -> (r: (CommissioningError, Option<Cleanup>))
        ensures
            (*final(self), r.0, r.1) == armed(*old(self), seconds, breadcrumb, fabric, now, window_has_priority),
    {
        let cleanup: Option<Cleanup> = self.expire(now);
        match self.context {
            Some(a) => {
                if !same_fabric(a.fabric_index, fabric) {
                    return (CommissioningError::BusyWithOtherAdmin, cleanup);
                }
                if seconds == 0 {
                    let ended: Option<Cleanup> = self.end();
                    return (CommissioningError::Success, ended);
                }
                self.context = Some(Armed { deadline: sooner(after_seconds(now, seconds), a.limit), ..a });
                self.breadcrumb = breadcrumb;
                (CommissioningError::Success, cleanup)
            },
            None => {
                if window_has_priority {
                    return (CommissioningError::BusyWithOtherAdmin, cleanup);
                }
                if seconds == 0 {
                    return (CommissioningError::Success, cleanup);
                }
                let limit: Instant = after_seconds(now, self.info.max_cumulative_seconds);
                self.context = Some(
                    Armed {
                        fabric_index: fabric,
                        deadline: sooner(after_seconds(now, seconds), limit),
                        limit,
                        added: None,
                        updated: None,
                        root_added: false,
                    },
                );
                self.breadcrumb = breadcrumb;
                (CommissioningError::Success, cleanup)
            },
        }
    }

    /// Completes commissioning.
    pub fn complete(&mut self, over_case: bool, fabric: Option<FabricIndex>, now: Instant) -> (r: (
        CommissioningError,
        Option<Cleanup>,
    ))
        ensures
            (*final(self), r.0, r.1) == completed(*old(self), over_case, fabric, now),
    {
        let cleanup: Option<Cleanup> = self.expire(now);
        if !over_case {
            return (CommissioningError::InvalidAuthentication, cleanup);
        }
        match self.context {
            None => (CommissioningError::NoFailSafe, cleanup),
            Some(a) => {
                if !same_fabric(a.fabric_index, fabric) {
                    return (CommissioningError::InvalidAuthentication, cleanup);
                }
                self.context = None;
                self.breadcrumb = 0;
                (CommissioningError::Success, cleanup)
            },
        }
    }

    /// Remembers a step of commissioning; nothing where it is not armed.
    pub fn record(&mut self, p: Progress, now: Instant) -> (done: bool)
        ensures
            match held(*old(self), now) {
                Some(a) => done && *final(self) == (FailSafe { context: Some(progressed(a, p)), ..*old(self) }),
                None => !done && *final(self) == *old(self),
            },
    {
        match self.armed(now) {
            None => false,
            Some(a) => {
                let next: Armed = match p {
                    Progress::RootAdded => Armed { root_added: true, ..a },
                    Progress::NocAdded(fabric) => Armed { fabric_index: Some(fabric), added: Some(fabric), ..a },
                    Progress::NocUpdated(fabric) => Armed { updated: Some(fabric), ..a },
                };
                self.context = Some(next);
                true
            },
        }
    }
}

/// How a window is open.
#[derive(Debug, Clone, Copy, PartialEq, Eq, Structural)]
pub enum WindowStatus {
    /// It is not.
    NotOpen,
    /// With a passcode of its own.
    EnhancedOpen,
    /// With the device's passcode.
    BasicOpen,
}

/// The number of a status.
pub open spec fn window_value(s: WindowStatus) -> u8 {
    match s {
        WindowStatus::NotOpen => 0,
        WindowStatus::EnhancedOpen => 1,
        WindowStatus::BasicOpen => 2,
    }
}

impl WindowStatus {
    /// Its number.
    pub fn value(self) -> (v: u8)
        ensures
            v == window_value(self),
    {
        match self {
            WindowStatus::NotOpen => 0,
            WindowStatus::EnhancedOpen => 1,
            WindowStatus::BasicOpen => 2,
        }
    }
}

/// The passcode verifier of one window.
#[derive(Debug)]
pub struct EphemeralVerifier {
    /// The verifier.
    pub verifier: Vec<u8>,
    /// The iterations that it was made with.
    pub iterations: u32,
    /// The salt that it was made with.
    pub salt: Vec<u8>,
}

/// The passcode verifier of one window.
pub struct VerifierModel {
    /// The verifier.
    pub verifier: Seq<u8>,
    /// The iterations that it was made with.
    pub iterations: u32,
    /// The salt that it was made with.
    pub salt: Seq<u8>,
}

impl View for EphemeralVerifier {
    type V = VerifierModel;

    open spec fn view(&self) -> VerifierModel {
        VerifierModel { verifier: self.verifier@, iterations: self.iterations, salt: self.salt@ }
    }
}

/// Whether iterations and a salt can be those of a verifier.
pub open spec fn parameters_valid(iterations: u32, salt: Seq<u8>) -> bool {
    1_000 <= iterations <= 100_000 && 16 <= salt.len() <= 32
}

/// Whether iterations and a salt can be those of a verifier.
pub fn parameters_are_valid(iterations: u32, salt: &[u8]) -> (r: bool)
    ensures
        r == parameters_valid(iterations, salt@),
{
    1_000 <= iterations && iterations <= 100_000 && 16 <= salt.len() && salt.len() <= 32
}

/// An open window.
#[derive(Debug)]
pub struct OpenWindow {
    /// How it is open.
    pub status: WindowStatus,
    /// When it closes.
    pub expires_at: Instant,
    /// The fabric that opened it, where there is one.
    pub admin_fabric: Option<FabricIndex>,
    /// That fabric's vendor when it opened it, where it is known.
    pub admin_vendor: Option<VendorId>,
    /// What it is announced under.
    pub discriminator: u16,
    /// Its passcode verifier, where it has one of its own.
    pub ephemeral: Option<EphemeralVerifier>,
}

/// An open window.
pub struct WindowModel {
    /// How it is open.
    pub status: WindowStatus,
    /// When it closes.
    pub expires_at: Instant,
    /// The fabric that opened it, where there is one.
    pub admin_fabric: Option<FabricIndex>,
    /// That fabric's vendor when it opened it, where it is known.
    pub admin_vendor: Option<VendorId>,
    /// What it is announced under.
    pub discriminator: u16,
    /// Its passcode verifier, where it has one of its own.
    pub ephemeral: Option<VerifierModel>,
}

impl View for OpenWindow {
    type V = WindowModel;

    open spec fn view(&self) -> WindowModel {
        WindowModel {
            status: self.status,
            expires_at: self.expires_at,
            admin_fabric: self.admin_fabric,
            admin_vendor: self.admin_vendor,
            discriminator: self.discriminator,
            ephemeral: match self.ephemeral {
                Some(e) => Some(e@),
                None => None,
            },
        }
    }
}

/// The node's commissioning window.
#[derive(Debug)]
pub struct CommissioningWindow {
    /// The window that was opened last, also when its time is over.
    pub window: Option<OpenWindow>,
}

impl View for CommissioningWindow {
    type V = Option<WindowModel>;

    open spec fn view(&self) -> Option<WindowModel> {
        match self.window {
            Some(w) => Some(w@),
            None => None,
        }
    }
}

/// The window that is open at a moment.
pub open spec fn open_at(w: Option<WindowModel>, now: Instant) -> Option<WindowModel> {
    match w {
        Some(w) => if now.micros < w.expires_at.micros { Some(w) } else { None },
        None => None,
    }
}

impl CommissioningWindow {
    /// No window.
    pub fn new() -> (w: Self)
        ensures
            w@ is None,
    {
        CommissioningWindow { window: None }
    }

    /// The window that is open at a moment.
    pub fn open(&self, now: Instant) -> (w: Option<&OpenWindow>)
        ensures
            match w {
                Some(w) => open_at(self@, now) == Some(w@),
                None => open_at(self@, now) is None,
            },
    {
        match &self.window {
            Some(w) => if now.micros < w.expires_at.micros {
                Some(w)
            } else {
                None
            },
            None => None,
        }
    }

    /// How a window is open at a moment.
    pub fn status(&self, now: Instant) -> (s: WindowStatus)
        ensures
            s == match open_at(self@, now) {
                Some(w) => w.status,
                None => WindowStatus::NotOpen,
            },
    {
        match self.open(now) {
            Some(w) => w.status,
            None => WindowStatus::NotOpen,
        }
    }

    /// Opens a window in place of any other.
    pub fn install(&mut self, window: OpenWindow)
        ensures
            final(self)@ == Some(window@),
    {
        self.window = Some(window);
    }

    /// Closes the window, and forgets its verifier.
    pub fn close(&mut self)
        ensures
            final(self)@ is None,
    {
        self.window = None;
    }
}

/// What the clusters of commissioning share.
#[derive(Debug)]
pub struct Shared {
    /// The window.
    pub window: CommissioningWindow,
    /// The fail-safe.
    pub fail_safe: FailSafe,
}

/// What the clusters of commissioning share.
pub struct SharedModel {
    /// The window.
    pub window: Option<WindowModel>,
    /// The fail-safe.
    pub fail_safe: FailSafe,
}

impl View for Shared {
    type V = SharedModel;

    open spec fn view(&self) -> SharedModel {
        SharedModel { window: self.window@, fail_safe: self.fail_safe }
    }
}

impl Shared {
    /// No window, and a fail-safe that is not armed.
    pub fn new(info: BasicCommissioningInfo) -> (s: Self)
        ensures
            s@ == (SharedModel { window: None, fail_safe: FailSafe { info, breadcrumb: 0, context: None } }),
    {
        Shared { window: CommissioningWindow::new(), fail_safe: FailSafe::new(info) }
    }
}

/// Only the fabric that armed a fail-safe moves it on: to any other, an armed one is busy and stays
/// as it is.
pub proof fn law_a_fail_safe_belongs_to_its_fabric(
    f: FailSafe,
    seconds: u16,
    breadcrumb: u64,
    fabric: Option<FabricIndex>,
    now: Instant,
    window_has_priority: bool,
)
    requires
        held(f, now) matches Some(a) && a.fabric_index != fabric,
    ensures
        armed(f, seconds, breadcrumb, fabric, now, window_has_priority) == (
            f,
            CommissioningError::BusyWithOtherAdmin,
            None::<Cleanup>,
        ),
{
}

/// Arming again never takes a fail-safe beyond the limit that it got when it was first armed.
pub proof fn law_a_fail_safe_keeps_its_limit(
    f: FailSafe,
    seconds: u16,
    breadcrumb: u64,
    fabric: Option<FabricIndex>,
    now: Instant,
    window_has_priority: bool,
)
    requires
        f.context matches Some(a) ==> a.deadline.micros <= a.limit.micros,
    ensures
        ({
            let g = armed(f, seconds, breadcrumb, fabric, now, window_has_priority).0;
            &&& g.context matches Some(a) ==> a.deadline.micros <= a.limit.micros
            &&& (held(f, now) matches Some(before) ==> (g.context matches Some(a) ==> a.limit == before.limit))
        }),
{
}

/// What has to be undone is reported once: after that there is nothing left to end.
pub proof fn law_a_cleanup_comes_once(f: FailSafe, now: Instant, then: Instant)
    ensures
        ({
            let (g, cleanup) = lapsed(f, now);
            cleanup is Some ==> g.context is None && g.breadcrumb == 0 && lapsed(g, then) == (g, None::<Cleanup>)
        }),
{
}

/// A fail-safe that was completed undoes nothing: completion reports only what lapsed before it.
pub proof fn law_completion_is_no_rollback(f: FailSafe, over_case: bool, fabric: Option<FabricIndex>, now: Instant)
    ensures
        ({
            let (g, error, cleanup) = completed(f, over_case, fabric, now);
            error is Success ==> cleanup is None && g.context is None && g.breadcrumb == 0 && over_case && (held(f, now) matches Some(
                a,
            ) && a.fabric_index == fabric)
        }),
{
}

/// What a step of commissioning leaves to be undone: each step is remembered with the fail-safe and forgets none before it, and a
/// fabric that was added takes the fail-safe over; the time that it has stays.
pub proof fn law_every_step_is_remembered(a: Armed, p: Progress)
    ensures
        ({
            let next = progressed(a, p);
            let left = cleanup_of(next);
            &&& next.deadline == a.deadline && next.limit == a.limit
            &&& left.root_added == (a.root_added || p is RootAdded)
            &&& left.added == (match p {
                Progress::NocAdded(f) => Some(f),
                _ => a.added,
            })
            &&& left.updated == (match p {
                Progress::NocUpdated(f) => Some(f),
                _ => a.updated,
            })
            &&& left.fabric_index == next.fabric_index && next.fabric_index == (match p {
                Progress::NocAdded(f) => Some(f),
                _ => a.fabric_index,
            })
        }),
{
}

/// A fail-safe that ends is not armed any more, whatever the moment, and its breadcrumb is reset; one that has not lapsed stays,
/// and one that has is ended.
pub proof fn law_what_ends_is_over(f: FailSafe, now: Instant, then: Instant)
    ensures
        held(ended(f).0, then) is None,
        f.context is Some ==> ended(f).0.breadcrumb == 0 && ended(f).1 is Some,
        ended(f).0.info == f.info,
        f.context matches Some(a) && now.micros < a.deadline.micros ==> lapsed(f, now) == (f, None::<Cleanup>),
        f.context matches Some(a) && now.micros >= a.deadline.micros ==> lapsed(f, now).0.context is None && lapsed(f, now).1 is Some,
        open_at(None, now) is None,
        forall|w: WindowModel| #[trigger] open_at(Some(w), now) == (if now.micros < w.expires_at.micros { Some(w) } else { None }),
{
}

/// Which parameters a passcode's verifier can be made with.
pub proof fn law_parameters_keep_to_their_ranges(iterations: u32, salt: Seq<u8>)
    ensures
        parameters_valid(iterations, salt) == (1000 <= iterations <= 100_000 && 16 <= salt.len() <= 32),
{
}

} // verus!
