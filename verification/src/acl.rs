//! Who may do what: a node's access control entries, by fabric.

use vstd::prelude::*;

use crate::bounded;
use crate::bounded::List;
use crate::dm;
use crate::dm::Privilege;
use crate::error::ErrorCode;
use crate::msg::{FabricIndex, NodeId};

verus! {

/// How a subject proves who it is.
#[derive(Debug, Clone, Copy, PartialEq, Eq, Structural)]
pub enum AuthMode {
    /// By a passcode.
    Pase,
    /// By a certificate.
    Case,
    /// By a group's key.
    Group,
}

/// The number that stands for a mode.
pub open spec fn auth_value(mode: AuthMode) -> u8 {
    match mode {
        AuthMode::Pase => 1,
        AuthMode::Case => 2,
        AuthMode::Group => 3,
    }
}

/// The mode that a number stands for.
pub open spec fn auth_of(value: u8) -> Option<AuthMode> {
    if value == 1 {
        Some(AuthMode::Pase)
    } else if value == 2 {
        Some(AuthMode::Case)
    } else if value == 3 {
        Some(AuthMode::Group)
    } else {
        None
    }
}

impl AuthMode {
    /// The number that stands for it.
    pub fn value(self) -> (v: u8)
        ensures
            v == auth_value(self),
    {
        match self {
            AuthMode::Pase => 1,
            AuthMode::Case => 2,
            AuthMode::Group => 3,
        }
    }

    /// The mode that a number stands for.
    pub fn from_value(value: u8) -> (mode: Option<Self>)
        ensures
            mode == auth_of(value),
    {
        match value {
            1 => Some(AuthMode::Pase),
            2 => Some(AuthMode::Case),
            3 => Some(AuthMode::Group),
            _ => None,
        }
    }
}

/// What an entry applies to.
#[derive(Debug, Clone, Copy, PartialEq, Eq, Structural)]
pub struct Target {
    /// A cluster.
    pub cluster: Option<u32>,
    /// An endpoint.
    pub endpoint: Option<u16>,
    /// The endpoints of a device type.
    pub device_type: Option<u32>,
}

impl Target {
    /// Whether it names something that can exist, and not an endpoint and a device type at once.
    pub open spec fn valid(self) -> bool {
        &&& self.cluster is Some || self.endpoint is Some || self.device_type is Some
        &&& !(self.endpoint is Some && self.device_type is Some)
        &&& self.cluster matches Some(id) ==> dm::cluster_valid(id)
        &&& self.endpoint != Some(0xFFFFu16)
        &&& self.device_type matches Some(id) ==> dm::device_type_valid(id)
    }

    /// One that names nothing yet.
    pub fn new() -> (t: Self)
        ensures
            t == (Target { cluster: None, endpoint: None, device_type: None }),
    {
        Target { cluster: None, endpoint: None, device_type: None }
    }

    /// Whether it names something that can exist, and not an endpoint and a device type at once.
    pub fn is_valid(&self) -> (r: bool)
        ensures
            r == self.valid(),
    {
        if self.cluster.is_none() && self.endpoint.is_none() && self.device_type.is_none() {
            return false;
        }
        if self.endpoint.is_some() && self.device_type.is_some() {
            return false;
        }
        if let Some(id) = self.cluster {
            if !dm::cluster_is_valid(id) {
                return false;
            }
        }
        if let Some(endpoint) = self.endpoint {
            if endpoint == 0xFFFF {
                return false;
            }
        }
        if let Some(id) = self.device_type {
            if !dm::device_type_is_valid(id) {
                return false;
            }
        }
        true
    }
}

/// Whether a subject is one that a mode can prove: a node or a tag with a version for a
/// certificate, a group for a group's key.
pub open spec fn subject_valid(mode: AuthMode, subject: NodeId) -> bool {
    match mode {
        AuthMode::Pase => false,
        AuthMode::Case => subject.operational() || (0xFFFF_FFFD_0000_0000 <= subject.0 <= 0xFFFF_FFFD_FFFF_FFFF
            && subject.0 % 0x1_0000 != 0),
        AuthMode::Group => subject.0 > 0xFFFF_FFFF_FFFF_0000,
    }
}

fn is_subject_valid(mode: AuthMode, subject: NodeId) -> (r: bool)
    ensures
        r == subject_valid(mode, subject),
{
    match mode {
        AuthMode::Pase => false,
        AuthMode::Case => subject.is_operational() || (subject.0 >= 0xFFFF_FFFD_0000_0000 && subject.0
            <= 0xFFFF_FFFD_FFFF_FFFF && subject.0 % 0x1_0000 != 0),
        AuthMode::Group => subject.0 > 0xFFFF_FFFF_FFFF_0000,
    }
}

/// One access control entry: at most `S` subjects and `T` targets, none standing for all.
pub struct Entry<const S: usize, const T: usize> {
    /// The fabric.
    pub fabric_index: FabricIndex,
    /// What it grants.
    pub privilege: Privilege,
    /// How a subject proves who it is.
    pub auth_mode: AuthMode,
    /// To whom.
    pub subjects: List<NodeId, S>,
    /// On what.
    pub targets: List<Target, T>,
}

/// One access control entry, as a value.
pub struct EntryModel {
    /// The fabric.
    pub fabric: FabricIndex,
    /// What it grants.
    pub privilege: Privilege,
    /// How a subject proves who it is.
    pub auth_mode: AuthMode,
    /// To whom.
    pub subjects: Seq<NodeId>,
    /// On what.
    pub targets: Seq<Target>,
}

impl<const S: usize, const T: usize> View for Entry<S, T> {
    type V = EntryModel;

    open spec fn view(&self) -> EntryModel {
        EntryModel {
            fabric: self.fabric_index,
            privilege: self.privilege,
            auth_mode: self.auth_mode,
            subjects: self.subjects@,
            targets: self.targets@,
        }
    }
}

impl EntryModel {
    /// Whether the entry may stand in a list: it has a fabric, a passcode grants nothing lasting,
    /// a group never administers, and each subject and target is one.
    pub open spec fn valid(self) -> bool {
        &&& self.fabric.0 != 0
        &&& !(self.auth_mode is Pase)
        &&& !(self.auth_mode is Group && self.privilege is Administer)
        &&& forall|i: int|
            0 <= i < self.subjects.len() ==> subject_valid(self.auth_mode, #[trigger] self.subjects[i])
        &&& forall|i: int| 0 <= i < self.targets.len() ==> (#[trigger] self.targets[i]).valid()
    }
}

impl<const S: usize, const T: usize> Entry<S, T> {
    /// Whether the entry may stand in a list.
    pub fn is_valid(&self) -> (r: bool)
        ensures
            r == self@.valid(),
    {
        if self.fabric_index.0 == 0 || self.auth_mode == AuthMode::Pase || (self.auth_mode == AuthMode::Group
            && self.privilege == Privilege::Administer) {
            return false;
        }
        let subjects: &[NodeId] = self.subjects.as_slice();
        let mut i: usize = 0;
        while i < subjects.len()
            invariant
                i <= subjects@.len(),
                subjects@ == self@.subjects,
                forall|j: int| 0 <= j < i ==> subject_valid(self.auth_mode, #[trigger] subjects@[j]),
            decreases subjects.len() - i,
        {
            if !is_subject_valid(self.auth_mode, subjects[i]) {
                return false;
            }
            i = i + 1;
        }
        let targets: &[Target] = self.targets.as_slice();
        let mut k: usize = 0;
        while k < targets.len()
            invariant
                k <= targets@.len(),
                targets@ == self@.targets,
                forall|j: int| 0 <= j < k ==> (#[trigger] targets@[j]).valid(),
            decreases targets.len() - k,
        {
            if !targets[k].is_valid() {
                return false;
            }
            k = k + 1;
        }
        true
    }

    /// Another entry that says the same.
    pub fn copy(&self) -> (e: Self)
        ensures
            e@ == self@,
    {
        Entry {
            fabric_index: self.fabric_index,
            privilege: self.privilege,
            auth_mode: self.auth_mode,
            subjects: self.subjects.copy(),
            targets: self.targets.copy(),
        }
    }
}

/// Entries of a fabric.
pub open spec fn of_fabric(fabric: FabricIndex) -> spec_fn(EntryModel) -> bool {
    |e: EntryModel| e.fabric == fabric
}

/// Entries of other fabrics.
pub open spec fn not_of_fabric(fabric: FabricIndex) -> spec_fn(EntryModel) -> bool {
    |e: EntryModel| e.fabric != fabric
}

/// A list with one more entry, or why there is not.
pub open spec fn added(list: Seq<EntryModel>, e: EntryModel, per_fabric: nat, total: nat) -> (
    Seq<EntryModel>,
    Option<ErrorCode>,
) {
    if !e.valid() {
        (list, Some(ErrorCode::InvalidArgument))
    } else if bounded::count(list, of_fabric(e.fabric)) >= per_fabric || list.len() >= total {
        (list, Some(ErrorCode::NoSpace))
    } else {
        (list.push(e), None)
    }
}

/// Whether entries may be all that a fabric has.
pub open spec fn all_valid(entries: Seq<EntryModel>, fabric: FabricIndex) -> bool {
    forall|i: int| 0 <= i < entries.len() ==> (#[trigger] entries[i]).valid() && entries[i].fabric == fabric
}

/// What is wrong with the entry at `i` of those that a fabric is to have, where something is: it
/// has to be valid and of that fabric, and there has to be room.
pub open spec fn misfit(
    others: nat,
    fabric: FabricIndex,
    entries: Seq<EntryModel>,
    i: int,
    per_fabric: nat,
    total: nat,
) -> Option<ErrorCode> {
    if !entries[i].valid() || entries[i].fabric != fabric {
        Some(ErrorCode::InvalidArgument)
    } else if i >= per_fabric || others + i >= total {
        Some(ErrorCode::NoSpace)
    } else {
        None
    }
}

/// Where the first entry from `i` on stands that does not fit, or the end.
pub open spec fn fitting(
    others: nat,
    fabric: FabricIndex,
    entries: Seq<EntryModel>,
    i: int,
    per_fabric: nat,
    total: nat,
) -> int
    decreases entries.len() - i,
{
    if i >= entries.len() || misfit(others, fabric, entries, i, per_fabric, total) is Some {
        i
    } else {
        fitting(others, fabric, entries, i + 1, per_fabric, total)
    }
}

/// A list in which a fabric has these entries in place of those it had. The first that does not
/// fit ends it: the fabric then has those before it.
#[verifier::opaque]
pub open spec fn replaced(
    list: Seq<EntryModel>,
    fabric: FabricIndex,
    entries: Seq<EntryModel>,
    per_fabric: nat,
    total: nat,
) -> (Seq<EntryModel>, Option<ErrorCode>) {
    let others = list.filter(not_of_fabric(fabric));
    let k = fitting(others.len(), fabric, entries, 0, per_fabric, total);
    (
        others + entries.take(k),
        if k < entries.len() { misfit(others.len(), fabric, entries, k, per_fabric, total) } else { None },
    )
}

/// All before the first that does not fit do.
proof fn lemma_fitting(
    others: nat,
    fabric: FabricIndex,
    entries: Seq<EntryModel>,
    i: int,
    per_fabric: nat,
    total: nat,
)
    requires
        0 <= i <= entries.len(),
    ensures
        ({
            let k = fitting(others, fabric, entries, i, per_fabric, total);
            &&& i <= k <= entries.len()
            &&& forall|j: int|
                i <= j < k ==> (#[trigger] entries[j]).valid() && entries[j].fabric == fabric && j < per_fabric && others
                    + j < total
            &&& k < entries.len() ==> misfit(others, fabric, entries, k, per_fabric, total) is Some
        }),
    decreases entries.len() - i,
{
    if i < entries.len() && misfit(others, fabric, entries, i, per_fabric, total) is None {
        lemma_fitting(others, fabric, entries, i + 1, per_fabric, total);
    }
}

/// What a fabric has in a list that ends with entries of its own.
proof fn lemma_own(list: Seq<EntryModel>, fabric: FabricIndex, entries: Seq<EntryModel>)
    requires
        forall|i: int| 0 <= i < entries.len() ==> (#[trigger] entries[i]).fabric == fabric,
    ensures
        (list.filter(not_of_fabric(fabric)) + entries).filter(of_fabric(fabric)) == entries,
{
    let others = list.filter(not_of_fabric(fabric));
    bounded::lemma_filter(list, not_of_fabric(fabric));
    bounded::lemma_filter_none(others, of_fabric(fabric));
    bounded::lemma_filter_all(entries, of_fabric(fabric));
    Seq::filter_distributes_over_add(others, entries, of_fabric(fabric));
    assert(Seq::<EntryModel>::empty() + entries =~= entries);
}

/// One more entry at the end.
proof fn lemma_one_more(others: Seq<EntryModel>, entries: Seq<EntryModel>, i: int)
    requires
        0 <= i < entries.len(),
    ensures
        (others + entries.take(i)).push(entries[i]) == others + entries.take(i + 1),
{
    assert((others + entries.take(i)).push(entries[i]) =~= others + entries.take(i + 1));
}

/// The entry that an administrator of a fabric starts with.
pub open spec fn admin_entry(fabric: FabricIndex, subject: NodeId) -> EntryModel {
    EntryModel {
        fabric,
        privilege: Privilege::Administer,
        auth_mode: AuthMode::Case,
        subjects: seq![subject],
        targets: Seq::empty(),
    }
}

/// What is wrong, where something is.
pub open spec fn refusal(r: Result<(), ErrorCode>) -> Option<ErrorCode> {
    match r {
        Ok(_) => None,
        Err(code) => Some(code),
    }
}

/// A node's access control list: at most `P` entries of one fabric and `N` in all.
#[verifier::reject_recursive_types(S)]
#[verifier::reject_recursive_types(T)]
pub struct Acl<const P: usize, const N: usize, const S: usize, const T: usize> {
    entries: List<Entry<S, T>, N>,
}

impl<const P: usize, const N: usize, const S: usize, const T: usize> View for Acl<P, N, S, T> {
    type V = Seq<EntryModel>;

    closed spec fn view(&self) -> Seq<EntryModel> {
        self.entries.models()
    }
}

impl<const P: usize, const N: usize, const S: usize, const T: usize> Acl<P, N, S, T> {
    /// A list without entries.
    pub fn new() -> (acl: Self)
        ensures
            acl@ == Seq::<EntryModel>::empty(),
    {
        let entries: List<Entry<S, T>, N> = List::new();
        proof {
            assert(entries.models() =~= Seq::<EntryModel>::empty());
        }
        Acl { entries }
    }

    /// How many entries one fabric may have.
    pub fn per_fabric() -> (n: usize)
        ensures
            n == P,
    {
        P
    }

    /// How many entries there may be in all.
    pub fn total() -> (n: usize)
        ensures
            n == N,
    {
        N
    }

    /// How many entries there are.
    pub fn len(&self) -> (n: usize)
        ensures
            n == self@.len(),
    {
        self.entries.len()
    }

    /// Every entry, in order.
    pub fn entries(&self) -> (entries: &[Entry<S, T>])
        ensures
            bounded::models(entries@) == self@,
    {
        self.entries.as_slice()
    }

    /// The first `M` entries of a fabric.
    pub fn of_fabric<const M: usize>(&self, fabric: FabricIndex) -> (entries: List<Entry<S, T>, M>)
        ensures
            entries.models() == bounded::leading(self@.filter(of_fabric(fabric)), M as nat),
    {
        let items: &[Entry<S, T>] = self.entries.as_slice();
        let ghost models = self@;
        let ghost p = of_fabric(fabric);
        let mut entries: List<Entry<S, T>, M> = List::new();
        let mut i: usize = 0;
        proof {
            reveal(Seq::filter);
            assert(models.take(0) =~= Seq::<EntryModel>::empty());
            assert(entries.models() =~= bounded::leading(models.take(0).filter(p), M as nat));
        }
        while i < items.len()
            invariant
                i <= items@.len() == models.len(),
                models == bounded::models(items@),
                p == of_fabric(fabric),
                entries.models() == bounded::leading(models.take(i as int).filter(p), M as nat),
            decreases items.len() - i,
        {
            let ghost before = models.take(i as int).filter(p);
            proof {
                assert(models[i as int] == items@[i as int]@);
                bounded::lemma_filter_take(models, i as int, p);
            }
            if items[i].fabric_index.0 == fabric.0 {
                let _ = entries.add(items[i].copy());
                proof {
                    assert(entries.models() =~= bounded::leading(before.push(models[i as int]), M as nat));
                }
            }
            i = i + 1;
        }
        proof {
            assert(models.take(i as int) =~= models);
        }
        entries
    }

    /// Adds an entry.
    pub fn add(&mut self, entry: Entry<S, T>) -> (r: Result<(), ErrorCode>)
        ensures
            (final(self)@, refusal(r)) == added(old(self)@, entry@, P as nat, N as nat),
    {
        if !entry.is_valid() {
            return Err(ErrorCode::InvalidArgument);
        }
        let fabric: FabricIndex = entry.fabric_index;
        let have: usize = self.entries.tally(
            |e: &Entry<S, T>| -> (b: bool)
                ensures
                    b == (e.fabric_index == fabric)
                { e.fabric_index.0 == fabric.0 },
            Ghost(of_fabric(fabric)),
        );
        if have >= P {
            return Err(ErrorCode::NoSpace);
        }
        if self.entries.add(entry) {
            Ok(())
        } else {
            Err(ErrorCode::NoSpace)
        }
    }

    /// Gives a fabric these entries in place of those it had. One that is refused ends it: the fabric
    /// then has those before it.
    pub fn replace_fabric(&mut self, fabric: FabricIndex, entries: &[Entry<S, T>]) -> (r: Result<(), ErrorCode>)
        ensures
            (final(self)@, refusal(r)) == replaced(
                old(self)@,
                fabric,
                bounded::models(entries@),
                P as nat,
                N as nat,
            ),
    {
        let ghost new = bounded::models(entries@);
        let ghost others = self@.filter(not_of_fabric(fabric));
        self.remove_fabric(fabric);
        let mut i: usize = 0;
        proof {
            assert(others + new.take(0) =~= others);
        }
        while i < entries.len()
            invariant
                i <= entries@.len() == new.len(),
                new == bounded::models(entries@),
                others == old(self)@.filter(not_of_fabric(fabric)),
                forall|j: int| 0 <= j < i ==> (#[trigger] new[j]).fabric == fabric,
                fitting(others.len(), fabric, new, 0, P as nat, N as nat) == fitting(
                    others.len(),
                    fabric,
                    new,
                    i as int,
                    P as nat,
                    N as nat,
                ),
                self@ == others + new.take(i as int),
            decreases entries.len() - i,
        {
            proof {
                reveal(replaced);
                assert(new[i as int] == entries@[i as int]@);
                assert(bounded::count(self@, of_fabric(fabric)) == i) by {
                    lemma_own(old(self)@, fabric, new.take(i as int));
                }
            }
            if entries[i].fabric_index.0 != fabric.0 {
                return Err(ErrorCode::InvalidArgument);
            }
            let ghost before = self@;
            match self.add(entries[i].copy()) {
                Ok(_) => {},
                Err(code) => return Err(code),
            }
            proof {
                assert(self@ == before.push(new[i as int]));
                lemma_one_more(others, new, i as int);
            }
            i = i + 1;
        }
        reveal(replaced);
        Ok(())
    }

    /// Forgets the entries of a fabric.
    pub fn remove_fabric(&mut self, fabric: FabricIndex)
        ensures
            final(self)@ == old(self)@.filter(not_of_fabric(fabric)),
    {
        self.entries.keep(
            |e: &Entry<S, T>| -> (b: bool)
                ensures
                    b == (e.fabric_index != fabric)
                { e.fabric_index.0 != fabric.0 },
            Ghost(not_of_fabric(fabric)),
        );
    }

    /// Adds the entry that an administrator of a fabric starts with.
    pub fn add_admin_for_fabric(&mut self, fabric: FabricIndex, subject: NodeId) -> (r: Result<(), ErrorCode>)
        ensures
            S > 0 ==> (final(self)@, refusal(r)) == added(
                old(self)@,
                admin_entry(fabric, subject),
                P as nat,
                N as nat,
            ),
            S == 0 ==> r == Err::<(), ErrorCode>(ErrorCode::NoSpace) && final(self)@ == old(self)@,
    {
        match admin::<S, T>(fabric, subject) {
            None => Err(ErrorCode::NoSpace),
            Some(entry) => self.add(entry),
        }
    }
}

/// The entry that an administrator of a fabric starts with, where an entry has room for a subject.
pub fn admin<const S: usize, const T: usize>(fabric: FabricIndex, subject: NodeId) -> (e: Option<Entry<S, T>>)
    ensures
        (e is Some) == (S > 0),
        e matches Some(entry) ==> entry@ == admin_entry(fabric, subject),
{
    let mut subjects: List<NodeId, S> = List::new();
    if !subjects.push(subject) {
        return None;
    }
    let entry: Entry<S, T> = Entry {
        fabric_index: fabric,
        privilege: Privilege::Administer,
        auth_mode: AuthMode::Case,
        subjects,
        targets: List::new(),
    };
    proof {
        assert(entry@.subjects =~= admin_entry(fabric, subject).subjects);
    }
    Some(entry)
}

/// What one fabric writes leaves the entries of every other.
pub proof fn law_replacing_stays_in_the_fabric(
    list: Seq<EntryModel>,
    fabric: FabricIndex,
    entries: Seq<EntryModel>,
    per_fabric: nat,
    total: nat,
    other: FabricIndex,
)
    requires
        other != fabric,
    ensures
        replaced(list, fabric, entries, per_fabric, total).0.filter(of_fabric(other)) == list.filter(of_fabric(other)),
{
    reveal(replaced);
    let others = list.filter(not_of_fabric(fabric));
    let kept = entries.take(fitting(others.len(), fabric, entries, 0, per_fabric, total));
    lemma_fitting(others.len(), fabric, entries, 0, per_fabric, total);
    bounded::lemma_filter_filter(list, not_of_fabric(fabric), of_fabric(other), of_fabric(other));
    bounded::lemma_filter_none(kept, of_fabric(other));
    Seq::filter_distributes_over_add(others, kept, of_fabric(other));
    assert(others.filter(of_fabric(other)) + Seq::<EntryModel>::empty() =~= others.filter(of_fabric(other)));
}

/// A fabric may have its entries replaced by others that are all its own and valid, where they keep
/// to its share and to the room that the other fabrics leave; then it has them and no others.
pub proof fn law_what_a_replacement_leaves(
    list: Seq<EntryModel>,
    fabric: FabricIndex,
    entries: Seq<EntryModel>,
    per_fabric: nat,
    total: nat,
)
    ensures
        ({
            let (now, refusal) = replaced(list, fabric, entries, per_fabric, total);
            let others = list.filter(not_of_fabric(fabric));
            &&& (refusal is None) == (all_valid(entries, fabric) && entries.len() <= per_fabric && others.len()
                + entries.len() <= total || entries.len() == 0)
            &&& refusal is None ==> now == others + entries && now.filter(of_fabric(fabric)) == entries
        }),
{
    reveal(replaced);
    let others = list.filter(not_of_fabric(fabric));
    let k = fitting(others.len(), fabric, entries, 0, per_fabric, total);
    lemma_fitting(others.len(), fabric, entries, 0, per_fabric, total);
    assert(entries.take(entries.len() as int) =~= entries);
    if k == entries.len() {
        lemma_own(list, fabric, entries);
        if k > 0 {
            assert(entries[k - 1].valid());
        }
    }
}

/// A replacement that fails leaves the fabric the entries before the one that does not fit.
pub proof fn law_a_failed_replacement_leaves_the_beginning(
    list: Seq<EntryModel>,
    fabric: FabricIndex,
    entries: Seq<EntryModel>,
    per_fabric: nat,
    total: nat,
)
    requires
        replaced(list, fabric, entries, per_fabric, total).1 is Some,
    ensures
        exists|k: int| #![trigger entries.take(k)]
            0 <= k < entries.len() && replaced(list, fabric, entries, per_fabric, total).0.filter(of_fabric(fabric))
                == entries.take(k),
{
    reveal(replaced);
    let others = list.filter(not_of_fabric(fabric));
    let k = fitting(others.len(), fabric, entries, 0, per_fabric, total);
    lemma_fitting(others.len(), fabric, entries, 0, per_fabric, total);
    lemma_own(list, fabric, entries.take(k));
}

/// No fabric ever has more entries than its share.
pub proof fn law_no_fabric_outgrows_its_share(
    list: Seq<EntryModel>,
    e: EntryModel,
    per_fabric: nat,
    total: nat,
    fabric: FabricIndex,
)
    requires
        bounded::count(list, of_fabric(fabric)) <= per_fabric,
    ensures
        bounded::count(added(list, e, per_fabric, total).0, of_fabric(fabric)) <= per_fabric,
{
    bounded::lemma_filter_push(list, e, of_fabric(fabric));
}

/// Replacing the entries of a fabric keeps every fabric to its share.
pub proof fn law_a_replacement_keeps_the_shares(
    list: Seq<EntryModel>,
    fabric: FabricIndex,
    entries: Seq<EntryModel>,
    per_fabric: nat,
    total: nat,
    each: FabricIndex,
)
    requires
        bounded::count(list, of_fabric(each)) <= per_fabric,
    ensures
        bounded::count(replaced(list, fabric, entries, per_fabric, total).0, of_fabric(each)) <= per_fabric,
{
    if each == fabric {
        reveal(replaced);
        let others = list.filter(not_of_fabric(fabric));
        let k = fitting(others.len(), fabric, entries, 0, per_fabric, total);
        lemma_fitting(others.len(), fabric, entries, 0, per_fabric, total);
        lemma_own(list, fabric, entries.take(k));
        if k > 0 {
            assert(entries[k - 1].valid());
        }
    } else {
        law_replacing_stays_in_the_fabric(list, fabric, entries, per_fabric, total, each);
    }
}

/// A fabric that was removed grants nothing to whoever has its index next, and no other fabric
/// loses anything.
pub proof fn law_a_removed_fabric_grants_nothing(list: Seq<EntryModel>, fabric: FabricIndex, other: FabricIndex)
    ensures
        list.filter(not_of_fabric(fabric)).filter(of_fabric(fabric)).len() == 0,
        other != fabric ==> list.filter(not_of_fabric(fabric)).filter(of_fabric(other)) == list.filter(of_fabric(other)),
{
    bounded::lemma_filter(list, not_of_fabric(fabric));
    bounded::lemma_filter_none(list.filter(not_of_fabric(fabric)), of_fabric(fabric));
    if other != fabric {
        bounded::lemma_filter_filter(list, not_of_fabric(fabric), of_fabric(other), of_fabric(other));
    }
}

/// What may stand in a list, and nothing else may: an entry of a fabric that is none by a passcode, that gives no group
/// Administer, whose subjects are operational nodes or tags with a version for certificates and groups for groups, and whose
/// targets each name a cluster, an endpoint or a device type that can exist, but not both of the last two.
pub proof fn law_what_may_stand_in_a_list(e: EntryModel)
    ensures
        e.valid() == ({
            &&& e.fabric.0 != 0
            &&& e.auth_mode is Case || (e.auth_mode is Group && !(e.privilege is Administer))
            &&& forall|i: int|
                0 <= i < e.subjects.len() ==> {
                    let s = (#[trigger] e.subjects[i]).0;
                    if e.auth_mode is Case {
                        (1 <= s <= 0xFFFF_FFEF_FFFF_FFFF) || (0xFFFF_FFFD_0000_0000 <= s <= 0xFFFF_FFFD_FFFF_FFFF && s % 0x1_0000 != 0)
                    } else {
                        0xFFFF_FFFF_FFFF_0001 <= s
                    }
                }
            &&& forall|i: int|
                0 <= i < e.targets.len() ==> {
                    let t = #[trigger] e.targets[i];
                    &&& t.cluster is Some || t.endpoint is Some || t.device_type is Some
                    &&& t.endpoint is None || t.device_type is None
                    &&& t.endpoint != Some(0xFFFFu16)
                    &&& t.cluster matches Some(id) ==> dm::cluster_valid(id)
                    &&& t.device_type matches Some(id) ==> dm::device_type_valid(id)
                }
        }),
{
    if e.auth_mode is Case || e.auth_mode is Group {
        assert forall|i: int| 0 <= i < e.subjects.len() implies subject_valid(e.auth_mode, #[trigger] e.subjects[i]) == ({
            let s = e.subjects[i].0;
            if e.auth_mode is Case {
                (1 <= s <= 0xFFFF_FFEF_FFFF_FFFF) || (0xFFFF_FFFD_0000_0000 <= s <= 0xFFFF_FFFD_FFFF_FFFF && s % 0x1_0000 != 0)
            } else {
                0xFFFF_FFFF_FFFF_0001 <= s
            }
        }) by {}
    }
}

/// An entry is added at the end, exactly where it may stand in the list and neither its fabric nor the list is full.
pub proof fn law_an_entry_is_added(list: Seq<EntryModel>, e: EntryModel, per_fabric: nat, total: nat)
    ensures
        ({
            let (after, refused) = added(list, e, per_fabric, total);
            let full = list.filter(|x: EntryModel| x.fabric == e.fabric).len() >= per_fabric || list.len() >= total;
            &&& refused == (if !e.valid() {
                Some(ErrorCode::InvalidArgument)
            } else if full {
                Some(ErrorCode::NoSpace)
            } else {
                None
            })
            &&& after == (if refused is None { list.push(e) } else { list })
        }),
{
    assert(of_fabric(e.fabric) =~= |x: EntryModel| x.fabric == e.fabric);
}

} // verus!
