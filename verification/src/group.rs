//! The node's group keys: which key sets each fabric has, and which secures which group.

use vstd::prelude::*;

use crate::bounded;
use crate::bounded::List;
use crate::crypto::SymmetricKey;
use crate::im::Status;
use crate::msg::{FabricIndex, GroupId};

verus! {

/// A key set of a fabric; zero is the fabric's own identity key.
pub type KeySetId = u16;

/// How members of a group trust each other's counters.
#[derive(Debug, Clone, Copy, PartialEq, Eq, Structural)]
pub enum GroupKeySecurityPolicy {
    /// The first message is believed.
    TrustFirst,
    /// Counters are exchanged first.
    CacheAndSync,
}

/// The number that stands for a policy.
pub open spec fn policy_value(p: GroupKeySecurityPolicy) -> u8 {
    match p {
        GroupKeySecurityPolicy::TrustFirst => 0,
        GroupKeySecurityPolicy::CacheAndSync => 1,
    }
}

impl GroupKeySecurityPolicy {
    /// The number that stands for it.
    pub fn value(self) -> (v: u8)
        ensures
            v == policy_value(self),
    {
        match self {
            GroupKeySecurityPolicy::TrustFirst => 0,
            GroupKeySecurityPolicy::CacheAndSync => 1,
        }
    }

    /// The policy that a number stands for.
    pub fn from_value(v: u8) -> (p: Option<Self>)
        ensures
            match p {
                Some(p) => policy_value(p) == v,
                None => v > 1,
            },
    {
        if v == 0 {
            Some(GroupKeySecurityPolicy::TrustFirst)
        } else if v == 1 {
            Some(GroupKeySecurityPolicy::CacheAndSync)
        } else {
            None
        }
    }
}

/// A key, and from when on it is used.
#[derive(Clone, Copy)]
pub struct EpochKey {
    /// The key.
    pub key: SymmetricKey,
    /// From when on, in microseconds of the epoch.
    pub start_time_us: u64,
}

/// A key and its start, as a value.
pub struct EpochModel {
    /// The key.
    pub key: Seq<u8>,
    /// From when on.
    pub start: u64,
}

impl View for EpochKey {
    type V = EpochModel;

    open spec fn view(&self) -> EpochModel {
        EpochModel { key: self.key@, start: self.start_time_us }
    }
}

/// The keys of a key set, oldest first.
pub struct GroupKeySet {
    /// The fabric.
    pub fabric_index: FabricIndex,
    /// Which of its key sets.
    pub id: KeySetId,
    /// How members trust each other.
    pub policy: GroupKeySecurityPolicy,
    /// The keys, at most three.
    pub epoch_keys: List<EpochKey, 3>,
}

/// A key set, as a value.
pub struct KeySetModel {
    /// The fabric.
    pub fabric: FabricIndex,
    /// Which of its key sets.
    pub id: KeySetId,
    /// How members trust each other.
    pub policy: GroupKeySecurityPolicy,
    /// The keys.
    pub epochs: Seq<EpochModel>,
}

impl View for GroupKeySet {
    type V = KeySetModel;

    open spec fn view(&self) -> KeySetModel {
        KeySetModel {
            fabric: self.fabric_index,
            id: self.id,
            policy: self.policy,
            epochs: self.epoch_keys.models(),
        }
    }
}

/// Which key set secures a group.
#[derive(Debug, Clone, Copy, PartialEq, Eq, Structural)]
pub struct MapEntry {
    /// The fabric.
    pub fabric: FabricIndex,
    /// The group.
    pub group: GroupId,
    /// The key set.
    pub key_set: KeySetId,
}

/// Group keys, as a value.
pub struct KeysModel {
    /// The key sets.
    pub sets: Seq<KeySetModel>,
    /// Which secures which group.
    pub map: Seq<MapEntry>,
}

/// Key sets of a fabric.
pub open spec fn set_of_fabric(fabric: FabricIndex) -> spec_fn(KeySetModel) -> bool {
    |s: KeySetModel| s.fabric == fabric
}

/// Key sets of other fabrics.
pub open spec fn set_not_of_fabric(fabric: FabricIndex) -> spec_fn(KeySetModel) -> bool {
    |s: KeySetModel| s.fabric != fabric
}

/// A key set of a fabric.
pub open spec fn set_is(fabric: FabricIndex, id: KeySetId) -> spec_fn(KeySetModel) -> bool {
    |s: KeySetModel| s.fabric == fabric && s.id == id
}

/// Entries of a fabric.
pub open spec fn entry_of_fabric(fabric: FabricIndex) -> spec_fn(MapEntry) -> bool {
    |e: MapEntry| e.fabric == fabric
}

/// Entries of other fabrics.
pub open spec fn entry_not_of_fabric(fabric: FabricIndex) -> spec_fn(MapEntry) -> bool {
    |e: MapEntry| e.fabric != fabric
}

/// The entry of a group.
pub open spec fn entry_is(fabric: FabricIndex, group: GroupId) -> spec_fn(MapEntry) -> bool {
    |e: MapEntry| e.fabric == fabric && e.group == group
}

/// How many key sets and groups there may be: in all, and for one fabric.
#[derive(Debug, Clone, Copy, PartialEq, Eq, Structural)]
pub struct Limits {
    /// Key sets in all.
    pub sets: usize,
    /// Groups in all.
    pub groups: usize,
    /// Key sets of one fabric.
    pub sets_per_fabric: u16,
    /// Groups of one fabric.
    pub groups_per_fabric: u16,
}

/// A key set of a fabric, where there is one.
pub open spec fn set_at(k: KeysModel, fabric: FabricIndex, id: KeySetId) -> Option<KeySetModel> {
    match bounded::first(k.sets, set_is(fabric, id)) {
        Some(i) => Some(k.sets[i]),
        None => None,
    }
}

/// Writing a key set replaces the one that was there, whole; a new one needs room in the fabric's
/// share and in all.
pub open spec fn set_written(k: KeysModel, l: Limits, set: KeySetModel) -> (KeysModel, Option<Status>) {
    match bounded::first(k.sets, set_is(set.fabric, set.id)) {
        Some(i) => (KeysModel { sets: k.sets.update(i, set), ..k }, None),
        None => if bounded::count(k.sets, set_of_fabric(set.fabric)) >= l.sets_per_fabric || k.sets.len() >= l.sets {
            (k, Some(Status::ResourceExhausted))
        } else {
            (KeysModel { sets: k.sets.push(set), ..k }, None)
        },
    }
}

/// Removing a key set: never the identity key's, and only one that is there.
pub open spec fn set_removed(k: KeysModel, fabric: FabricIndex, id: KeySetId) -> (KeysModel, Option<Status>) {
    if id == 0 {
        (k, Some(Status::InvalidCommand))
    } else {
        match bounded::first(k.sets, set_is(fabric, id)) {
            Some(i) => (KeysModel { sets: k.sets.remove(i), ..k }, None),
            None => (k, Some(Status::NotFound)),
        }
    }
}

/// Mapping a group to a key set: a group that has one gets the other, and a new one needs room.
pub open spec fn group_mapped(k: KeysModel, l: Limits, fabric: FabricIndex, group: GroupId, key_set: KeySetId) -> (
    KeysModel,
    Option<Status>,
) {
    let entry = MapEntry { fabric, group, key_set };
    match bounded::first(k.map, entry_is(fabric, group)) {
        Some(i) => (KeysModel { map: k.map.update(i, entry), ..k }, None),
        None => if bounded::count(k.map, entry_of_fabric(fabric)) >= l.groups_per_fabric || k.map.len() >= l.groups {
            (k, Some(Status::ResourceExhausted))
        } else {
            (KeysModel { map: k.map.push(entry), ..k }, None)
        },
    }
}

/// A fabric's entries for groups and their key sets.
pub open spec fn entries_for(fabric: FabricIndex, entries: Seq<(GroupId, KeySetId)>) -> Seq<MapEntry> {
    entries.map_values(|e: (GroupId, KeySetId)| MapEntry { fabric, group: e.0, key_set: e.1 })
}

/// Replacing a fabric's whole map: every other fabric's entries stay, and the new ones need room.
pub open spec fn map_replaced(k: KeysModel, l: Limits, fabric: FabricIndex, entries: Seq<(GroupId, KeySetId)>) -> (
    KeysModel,
    Option<Status>,
) {
    let others = k.map.filter(entry_not_of_fabric(fabric));
    if entries.len() > l.groups_per_fabric || others.len() + entries.len() > l.groups {
        (k, Some(Status::ResourceExhausted))
    } else {
        (KeysModel { map: others + entries_for(fabric, entries), ..k }, None)
    }
}

/// Forgetting a fabric.
pub open spec fn fabric_removed(k: KeysModel, fabric: FabricIndex) -> KeysModel {
    KeysModel { sets: k.sets.filter(set_not_of_fabric(fabric)), map: k.map.filter(entry_not_of_fabric(fabric)) }
}

/// The group keys of a node: at most `K` key sets and `G` groups.
pub struct GroupKeys<const K: usize, const G: usize> {
    sets: List<GroupKeySet, K>,
    map: List<MapEntry, G>,
    sets_per_fabric: u16,
    groups_per_fabric: u16,
}

impl<const K: usize, const G: usize> View for GroupKeys<K, G> {
    type V = KeysModel;

    closed spec fn view(&self) -> KeysModel {
        KeysModel { sets: self.sets.models(), map: self.map@ }
    }
}

/// A write that was refused or not.
pub open spec fn refusal(r: Result<(), Status>) -> Option<Status> {
    match r {
        Ok(_) => None,
        Err(status) => Some(status),
    }
}

impl<const K: usize, const G: usize> GroupKeys<K, G> {
    /// How many there may be.
    pub closed spec fn limits(&self) -> Limits {
        Limits {
            sets: K,
            groups: G,
            sets_per_fabric: self.sets_per_fabric,
            groups_per_fabric: self.groups_per_fabric,
        }
    }

    /// The capacities are limits.
    pub proof fn lemma_limits(&self)
        ensures
            self.limits().sets == K,
            self.limits().groups == G,
    {
    }

    /// No keys and no groups, with a share for each fabric.
    pub fn new(sets_per_fabric: u16, groups_per_fabric: u16) -> (k: Self)
        ensures
            k@.sets == Seq::<KeySetModel>::empty(),
            k@.map == Seq::<MapEntry>::empty(),
            k.limits() == (Limits { sets: K, groups: G, sets_per_fabric, groups_per_fabric }),
    {
        let k: GroupKeys<K, G> = GroupKeys {
            sets: List::new(),
            map: List::new(),
            sets_per_fabric,
            groups_per_fabric,
        };
        proof {
            assert(k@.sets =~= Seq::<KeySetModel>::empty());
        }
        k
    }

    /// How many groups a fabric may map.
    pub fn max_groups_per_fabric(&self) -> (n: u16)
        ensures
            n == self.limits().groups_per_fabric,
    {
        self.groups_per_fabric
    }

    /// How many key sets a fabric may have.
    pub fn max_key_sets_per_fabric(&self) -> (n: u16)
        ensures
            n == self.limits().sets_per_fabric,
    {
        self.sets_per_fabric
    }

    /// Every key set.
    pub fn key_sets(&self) -> (sets: &[GroupKeySet])
        ensures
            bounded::models(sets@) == self@.sets,
    {
        self.sets.as_slice()
    }

    /// Which key set secures which group.
    pub fn map(&self) -> (map: &[MapEntry])
        ensures
            map@ == self@.map,
    {
        self.map.as_slice()
    }

    fn locate(&self, fabric: FabricIndex, id: KeySetId) -> (at: Option<usize>)
        ensures
            match at {
                Some(i) => bounded::first(self@.sets, set_is(fabric, id)) == Some(i as int) && i < self@.sets.len(),
                None => bounded::first(self@.sets, set_is(fabric, id)) is None,
            },
    {
        self.sets.find(
            |s: &GroupKeySet| -> (b: bool)
                ensures
                    b == (s.fabric_index == fabric && s.id == id)
                { s.fabric_index.0 == fabric.0 && s.id == id },
            Ghost(set_is(fabric, id)),
        )
    }

    /// A key set of a fabric.
    pub fn key_set(&self, fabric: FabricIndex, id: KeySetId) -> (set: Option<&GroupKeySet>)
        ensures
            match set {
                Some(s) => set_at(self@, fabric, id) == Some(s@),
                None => set_at(self@, fabric, id) is None,
            },
    {
        match self.locate(fabric, id) {
            Some(i) => {
                proof {
                    assert(self.sets.models()[i as int] == self.sets@[i as int]@);
                }
                Some(self.sets.get(i))
            },
            None => None,
        }
    }

    /// Writes a key set.
    pub fn write_key_set(&mut self, set: GroupKeySet) -> (r: Result<(), Status>)
        ensures
            (final(self)@, refusal(r)) == set_written(old(self)@, old(self).limits(), set@),
            final(self).limits() == old(self).limits(),
    {
        let fabric: FabricIndex = set.fabric_index;
        match self.locate(fabric, set.id) {
            Some(i) => {
                self.sets.replace(i, set);
                Ok(())
            },
            None => {
                let held: usize = self.sets.tally(
                    |s: &GroupKeySet| -> (b: bool)
                        ensures
                            b == (s.fabric_index == fabric)
                        { s.fabric_index.0 == fabric.0 },
                    Ghost(set_of_fabric(fabric)),
                );
                if held >= self.sets_per_fabric as usize {
                    return Err(Status::ResourceExhausted);
                }
                if self.sets.add(set) {
                    Ok(())
                } else {
                    Err(Status::ResourceExhausted)
                }
            },
        }
    }

    /// Removes a key set.
    pub fn remove_key_set(&mut self, fabric: FabricIndex, id: KeySetId) -> (r: Result<(), Status>)
        ensures
            (final(self)@, refusal(r)) == set_removed(old(self)@, fabric, id),
            final(self).limits() == old(self).limits(),
    {
        if id == 0 {
            return Err(Status::InvalidCommand);
        }
        match self.locate(fabric, id) {
            Some(i) => {
                self.sets.take_out(i);
                Ok(())
            },
            None => Err(Status::NotFound),
        }
    }

    /// Maps a group to a key set.
    pub fn map_group(&mut self, fabric: FabricIndex, group: GroupId, key_set: KeySetId) -> (r: Result<(), Status>)
        ensures
            (final(self)@, refusal(r)) == group_mapped(old(self)@, old(self).limits(), fabric, group, key_set),
            final(self).limits() == old(self).limits(),
    {
        let at: Option<usize> = self.map.position(
            |e: &MapEntry| -> (b: bool)
                ensures
                    b == (e.fabric == fabric && e.group == group)
                { e.fabric.0 == fabric.0 && e.group.0 == group.0 },
            Ghost(entry_is(fabric, group)),
        );
        let entry: MapEntry = MapEntry { fabric, group, key_set };
        match at {
            Some(i) => {
                self.map.set(i, entry);
                Ok(())
            },
            None => {
                let held: usize = self.map.count(
                    |e: &MapEntry| -> (b: bool)
                        ensures
                            b == (e.fabric == fabric)
                        { e.fabric.0 == fabric.0 },
                    Ghost(entry_of_fabric(fabric)),
                );
                if held >= self.groups_per_fabric as usize {
                    return Err(Status::ResourceExhausted);
                }
                if self.map.push(entry) {
                    Ok(())
                } else {
                    Err(Status::ResourceExhausted)
                }
            },
        }
    }

    /// Replaces the whole map of a fabric.
    pub fn replace_map(&mut self, fabric: FabricIndex, entries: &Vec<(GroupId, KeySetId)>) -> (r: Result<(), Status>)
        ensures
            (final(self)@, refusal(r)) == map_replaced(old(self)@, old(self).limits(), fabric, entries@),
            final(self).limits() == old(self).limits(),
    {
        let others: usize = self.map.count(
            |e: &MapEntry| -> (b: bool)
                ensures
                    b == (e.fabric != fabric)
                { e.fabric.0 != fabric.0 },
            Ghost(entry_not_of_fabric(fabric)),
        );
        if entries.len() > self.groups_per_fabric as usize || entries.len() > G || others > G - entries.len() {
            return Err(Status::ResourceExhausted);
        }
        self.map.retain(
            |e: &MapEntry| -> (b: bool)
                ensures
                    b == (e.fabric != fabric)
                { e.fabric.0 != fabric.0 },
            Ghost(entry_not_of_fabric(fabric)),
        );
        let ghost kept = self.map@;
        let ghost all = entries_for(fabric, entries@);
        let mut i: usize = 0;
        proof {
            assert(kept + all.take(0) =~= kept);
        }
        while i < entries.len()
            invariant
                i <= entries@.len(),
                all == entries_for(fabric, entries@),
                kept.len() + entries@.len() <= G,
                self.map@ == kept + all.take(i as int),
                self.sets@ == old(self).sets@,
                self.sets_per_fabric == old(self).sets_per_fabric,
                self.groups_per_fabric == old(self).groups_per_fabric,
            decreases entries.len() - i,
        {
            let (group, key_set) = entries[i];
            let _ = self.map.push(MapEntry { fabric, group, key_set });
            i = i + 1;
            proof {
                assert(kept + all.take(i as int) =~= (kept + all.take(i - 1)).push(all[i - 1]));
            }
        }
        proof {
            assert(all.take(i as int) =~= all);
        }
        Ok(())
    }

    /// Forgets a fabric's keys and groups.
    pub fn remove_fabric(&mut self, fabric: FabricIndex)
        ensures
            final(self)@ == fabric_removed(old(self)@, fabric),
            final(self).limits() == old(self).limits(),
    {
        self.sets.keep(
            |s: &GroupKeySet| -> (b: bool)
                ensures
                    b == (s.fabric_index != fabric)
                { s.fabric_index.0 != fabric.0 },
            Ghost(set_not_of_fabric(fabric)),
        );
        self.map.retain(
            |e: &MapEntry| -> (b: bool)
                ensures
                    b == (e.fabric != fabric)
                { e.fabric.0 != fabric.0 },
            Ghost(entry_not_of_fabric(fabric)),
        );
    }
}

/// A key set that was written is read back, whole, and nothing of what it replaced is left.
pub proof fn law_a_written_key_set_is_read_back(k: KeysModel, l: Limits, set: KeySetModel)
    ensures
        set_written(k, l, set).1 is None ==> set_at(set_written(k, l, set).0, set.fabric, set.id) == Some(set),
{
    let p = set_is(set.fabric, set.id);
    bounded::lemma_first(k.sets, p);
    if set_written(k, l, set).1 is None {
        let after = set_written(k, l, set).0.sets;
        bounded::lemma_first(after, p);
        match bounded::first(k.sets, p) {
            Some(i) => {
                assert(p(after[i]));
                let j = bounded::first(after, p)->Some_0;
                if j < i {
                    assert(!p(k.sets[j]));
                    assert(after[j] == k.sets[j]);
                }
            },
            None => {
                assert(p(after[after.len() - 1]));
                let j = bounded::first(after, p)->Some_0;
                if j < k.sets.len() {
                    assert(!p(k.sets[j]));
                    assert(after[j] == k.sets[j]);
                }
            },
        }
    }
}

/// A group that was mapped to a key set is found with it.
pub proof fn law_a_mapped_group_is_found(k: KeysModel, l: Limits, fabric: FabricIndex, group: GroupId, key_set: KeySetId)
    requires
        group_mapped(k, l, fabric, group, key_set).1 is None,
    ensures
        ({
            let map = group_mapped(k, l, fabric, group, key_set).0.map;
            bounded::first(map, entry_is(fabric, group)) matches Some(i) && map[i].key_set == key_set
        }),
{
    let map = group_mapped(k, l, fabric, group, key_set).0.map;
    bounded::lemma_first(k.map, entry_is(fabric, group));
    bounded::lemma_first(map, entry_is(fabric, group));
    let i = match bounded::first(k.map, entry_is(fabric, group)) {
        Some(i) => i,
        None => k.map.len() as int,
    };
    assert forall|a: int| 0 <= a < i implies !entry_is(fabric, group)(#[trigger] map[a]) by {
        assert(map[a] == k.map[a]);
    }
    assert(entry_is(fabric, group)(map[i]));
}

/// The identity key's set is never removed on its own, only with its fabric.
pub proof fn law_the_identity_key_stays(k: KeysModel, fabric: FabricIndex)
    ensures
        set_removed(k, fabric, 0) == (k, Some(Status::InvalidCommand)),
{
}

/// Forgetting a fabric leaves nothing of it, and all of the others.
pub proof fn law_a_removed_fabric_leaves_no_keys(k: KeysModel, fabric: FabricIndex, other: FabricIndex)
    requires
        other != fabric,
    ensures
        fabric_removed(k, fabric).sets.filter(set_of_fabric(fabric)).len() == 0,
        fabric_removed(k, fabric).map.filter(entry_of_fabric(fabric)).len() == 0,
        fabric_removed(k, fabric).sets.filter(set_of_fabric(other)) == k.sets.filter(set_of_fabric(other)),
        fabric_removed(k, fabric).map.filter(entry_of_fabric(other)) == k.map.filter(entry_of_fabric(other)),
{
    let after = fabric_removed(k, fabric);
    bounded::lemma_filter(k.sets, set_not_of_fabric(fabric));
    bounded::lemma_filter(k.map, entry_not_of_fabric(fabric));
    bounded::lemma_filter_none(after.sets, set_of_fabric(fabric));
    bounded::lemma_filter_none(after.map, entry_of_fabric(fabric));
    bounded::lemma_filter_filter(k.sets, set_not_of_fabric(fabric), set_of_fabric(other), set_of_fabric(other));
    bounded::lemma_filter_filter(k.map, entry_not_of_fabric(fabric), entry_of_fabric(other), entry_of_fabric(other));
}

/// Writing a key set leaves every other key set and the map as they are; one that is there is written in its place, and a new
/// one, where the fabric and the node have room for it, comes last.
pub proof fn law_writing_touches_one_key_set(k: KeysModel, l: Limits, set: KeySetModel)
    ensures
        ({
            let (after, refused) = set_written(k, l, set);
            let there = exists|i: int|
                0 <= i < k.sets.len() && (#[trigger] k.sets[i]).fabric == set.fabric && k.sets[i].id == set.id;
            let room = k.sets.filter(|s: KeySetModel| s.fabric == set.fabric).len() < l.sets_per_fabric && k.sets.len() < l.sets;
            &&& after.map == k.map
            &&& refused == (if there || room { None } else { Some(Status::ResourceExhausted) })
            &&& refused is Some ==> after == k
            &&& there ==> exists|i: int|
                {
                    &&& 0 <= i < k.sets.len() && k.sets[i].fabric == set.fabric && k.sets[i].id == set.id
                    &&& after.sets == #[trigger] k.sets.update(i, set)
                }
            &&& !there && room ==> after.sets == k.sets.push(set)
        }),
{
    let p = set_is(set.fabric, set.id);
    bounded::lemma_first(k.sets, p);
    assert(set_of_fabric(set.fabric) =~= |s: KeySetModel| s.fabric == set.fabric);
    match bounded::first(k.sets, p) {
        Some(i) => {
            assert(p(k.sets[i]));
            assert(k.sets[i].fabric == set.fabric && k.sets[i].id == set.id);
        },
        None => {
            assert forall|i: int| 0 <= i < k.sets.len() implies !((#[trigger] k.sets[i]).fabric == set.fabric && k.sets[i].id
                == set.id) by {
                assert(!p(k.sets[i]));
            }
        },
    }
}

/// Removing takes out exactly the key set of that number of that fabric, and only where there is one; the map stays.
pub proof fn law_removing_takes_one_key_set(k: KeysModel, fabric: FabricIndex, id: KeySetId)
    requires
        id != 0,
    ensures
        ({
            let (after, refused) = set_removed(k, fabric, id);
            let there = exists|i: int| 0 <= i < k.sets.len() && (#[trigger] k.sets[i]).fabric == fabric && k.sets[i].id == id;
            &&& after.map == k.map
            &&& refused == (if there { None } else { Some(Status::NotFound) })
            &&& !there ==> after == k
            &&& there ==> exists|i: int|
                {
                    &&& 0 <= i < k.sets.len() && k.sets[i].fabric == fabric && k.sets[i].id == id
                    &&& after.sets == #[trigger] k.sets.remove(i)
                }
        }),
{
    let p = set_is(fabric, id);
    bounded::lemma_first(k.sets, p);
    match bounded::first(k.sets, p) {
        Some(i) => {
            assert(p(k.sets[i]));
            assert(k.sets[i].fabric == fabric && k.sets[i].id == id);
        },
        None => {
            assert forall|i: int| 0 <= i < k.sets.len() implies !((#[trigger] k.sets[i]).fabric == fabric && k.sets[i].id == id) by {
                assert(!p(k.sets[i]));
            }
        },
    }
}

/// Mapping a group leaves every other group's entry and the key sets as they are; a group that is there keeps its place, and a
/// new one, where the fabric and the node have room for it, comes last.
pub proof fn law_mapping_touches_one_group(k: KeysModel, l: Limits, fabric: FabricIndex, group: GroupId, key_set: KeySetId)
    ensures
        ({
            let (after, refused) = group_mapped(k, l, fabric, group, key_set);
            let entry = MapEntry { fabric, group, key_set };
            let there = exists|i: int| 0 <= i < k.map.len() && (#[trigger] k.map[i]).fabric == fabric && k.map[i].group == group;
            let room = k.map.filter(|e: MapEntry| e.fabric == fabric).len() < l.groups_per_fabric && k.map.len() < l.groups;
            &&& after.sets == k.sets
            &&& refused == (if there || room { None } else { Some(Status::ResourceExhausted) })
            &&& refused is Some ==> after == k
            &&& there ==> exists|i: int|
                {
                    &&& 0 <= i < k.map.len() && k.map[i].fabric == fabric && k.map[i].group == group
                    &&& after.map == #[trigger] k.map.update(i, entry)
                }
            &&& !there && room ==> after.map == k.map.push(entry)
        }),
{
    let p = entry_is(fabric, group);
    bounded::lemma_first(k.map, p);
    assert(entry_of_fabric(fabric) =~= |e: MapEntry| e.fabric == fabric);
    match bounded::first(k.map, p) {
        Some(i) => {
            assert(p(k.map[i]));
            assert(k.map[i].fabric == fabric && k.map[i].group == group);
        },
        None => {
            assert forall|i: int| 0 <= i < k.map.len() implies !((#[trigger] k.map[i]).fabric == fabric && k.map[i].group == group) by {
                assert(!p(k.map[i]));
            }
        },
    }
}

/// Replacing a fabric's map puts its new entries, all of them and in their order, behind those of the other fabrics, which
/// stay, where there is room; the key sets stay.
pub proof fn law_a_map_is_replaced_whole(k: KeysModel, l: Limits, fabric: FabricIndex, entries: Seq<(GroupId, KeySetId)>)
    ensures
        ({
            let (after, refused) = map_replaced(k, l, fabric, entries);
            let others = k.map.filter(|e: MapEntry| e.fabric != fabric);
            let fits = entries.len() <= l.groups_per_fabric && others.len() + entries.len() <= l.groups;
            &&& after.sets == k.sets
            &&& refused == (if fits { None } else { Some(Status::ResourceExhausted) })
            &&& !fits ==> after == k
            &&& fits ==> {
                &&& after.map.len() == others.len() + entries.len()
                &&& after.map.take(others.len() as int) == others
                &&& forall|i: int|
                    0 <= i < entries.len() ==> #[trigger] after.map[others.len() + i] == (MapEntry {
                        fabric,
                        group: entries[i].0,
                        key_set: entries[i].1,
                    })
            }
        }),
{
    assert(entry_not_of_fabric(fabric) =~= |e: MapEntry| e.fabric != fabric);
    let (after, refused) = map_replaced(k, l, fabric, entries);
    let others = k.map.filter(|e: MapEntry| e.fabric != fabric);
    if refused is None {
        assert(after.map.take(others.len() as int) =~= others);
    }
}

} // verus!
