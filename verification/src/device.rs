//! What an endpoint needs to be what it claims to be.

use vstd::prelude::*;

use crate::dm::{ClusterDescriptor, Endpoint};
use crate::im::ClusterId;

verus! {

/// On which side of a cluster an endpoint is.
#[derive(Debug, Clone, Copy, PartialEq, Eq, Structural)]
pub enum Side {
    /// It serves it.
    Server,
    /// It uses it.
    Client,
}

/// Something that a device type needs.
#[derive(Debug, Clone, Copy, PartialEq, Eq, Structural)]
pub struct Requirement {
    /// The cluster.
    pub cluster: ClusterId,
    /// On which side.
    pub side: Side,
    /// The features that the cluster has to have, where it is served.
    pub features: u32,
}

/// Something that an endpoint lacks.
#[derive(Debug, Clone, Copy, PartialEq, Eq, Structural)]
pub enum Defect {
    /// It does not serve a cluster.
    MissingServer(ClusterId),
    /// It does not use a cluster.
    MissingClient(ClusterId),
    /// A cluster that it serves lacks features.
    MissingFeatures(ClusterId, u32),
}

/// A device type, and what it needs.
#[derive(Debug, Clone, Copy)]
pub struct Definition<'a> {
    /// Which one.
    pub device_type: u32,
    /// Which revision of it.
    pub revision: u16,
    /// What it needs.
    pub requirements: &'a [Requirement],
}

/// What an endpoint lacks of a requirement, where it lacks something.
pub open spec fn lack(e: Endpoint, r: Requirement) -> Option<Defect> {
    match r.side {
        Side::Server => match e.serves(r.cluster) {
            None => Some(Defect::MissingServer(r.cluster)),
            Some(i) => if r.features & !e.clusters@[i].feature_map != 0 {
                Some(Defect::MissingFeatures(r.cluster, r.features & !e.clusters@[i].feature_map))
            } else {
                None
            },
        },
        Side::Client => if e.clients@.contains(r.cluster) {
            None
        } else {
            Some(Defect::MissingClient(r.cluster))
        },
    }
}

/// What an endpoint lacks of the first `n` requirements, in order.
pub open spec fn defects(e: Endpoint, requirements: Seq<Requirement>, n: int) -> Seq<Defect>
    decreases n,
{
    if n <= 0 {
        Seq::empty()
    } else {
        let before = defects(e, requirements, n - 1);
        match lack(e, requirements[n - 1]) {
            Some(d) => before.push(d),
            None => before,
        }
    }
}

fn uses(clients: &[ClusterId], id: ClusterId) -> (r: bool)
    ensures
        r == clients@.contains(id),
{
    let mut i: usize = 0;
    while i < clients.len()
        invariant
            i <= clients@.len(),
            forall|k: int| 0 <= k < i ==> clients@[k] != id,
        decreases clients.len() - i,
    {
        if clients[i] == id {
            return true;
        }
        i = i + 1;
    }
    false
}

fn lacks(e: &Endpoint<'_>, r: &Requirement) -> (d: Option<Defect>)
    ensures
        d == lack(*e, *r),
{
    match r.side {
        Side::Server => {
            let found: Option<&ClusterDescriptor> = e.cluster(r.cluster);
            match found {
                None => Some(Defect::MissingServer(r.cluster)),
                Some(c) => {
                    let missing: u32 = r.features & !c.feature_map;
                    if missing != 0 {
                        Some(Defect::MissingFeatures(r.cluster, missing))
                    } else {
                        None
                    }
                },
            }
        },
        Side::Client => {
            if uses(e.clients, r.cluster) {
                None
            } else {
                Some(Defect::MissingClient(r.cluster))
            }
        },
    }
}

impl<'a> Definition<'a> {
    /// What an endpoint lacks.
    pub fn validate(&self, endpoint: &Endpoint<'_>) -> (found: Vec<Defect>)
        ensures
            found@ == defects(*endpoint, self.requirements@, self.requirements@.len() as int),
    {
        let mut found: Vec<Defect> = Vec::new();
        let mut i: usize = 0;
        while i < self.requirements.len()
            invariant
                i <= self.requirements@.len(),
                found@ == defects(*endpoint, self.requirements@, i as int),
            decreases self.requirements.len() - i,
        {
            if let Some(d) = lacks(endpoint, &self.requirements[i]) {
                found.push(d);
            }
            i = i + 1;
        }
        found
    }

    /// Whether an endpoint lacks nothing.
    pub fn is_satisfied_by(&self, endpoint: &Endpoint<'_>) -> (r: bool)
        ensures
            r == (defects(*endpoint, self.requirements@, self.requirements@.len() as int).len() == 0),
    {
        let found: Vec<Defect> = self.validate(endpoint);
        found.len() == 0
    }
}

/// An endpoint lacks nothing exactly where it lacks nothing of each requirement.
pub proof fn law_satisfied_is_each_requirement_met(e: Endpoint, requirements: Seq<Requirement>, n: int)
    requires
        0 <= n <= requirements.len(),
    ensures
        defects(e, requirements, n).len() == 0 <==> forall|i: int|
            0 <= i < n ==> lack(e, #[trigger] requirements[i]) is None,
    decreases n,
{
    if n > 0 {
        law_satisfied_is_each_requirement_met(e, requirements, n - 1);
    }
}

/// What an endpoint lacks of a requirement: the cluster that it does not serve or use, or exactly those of the features that are
/// asked for which the cluster that it serves does not have.
pub proof fn law_what_is_lacking(e: Endpoint, r: Requirement, bit: u32)
    requires
        bit < 32,
    ensures
        ({
            let served = exists|i: int| 0 <= i < e.clusters@.len() && (#[trigger] e.clusters@[i]).id == r.cluster;
            &&& r.side is Client ==> lack(e, r) == (if e.clients@.contains(r.cluster) {
                None
            } else {
                Some(Defect::MissingClient(r.cluster))
            })
            &&& r.side is Server ==> (served ==> !(lack(e, r) == Some(Defect::MissingServer(r.cluster)))) && (!served ==> lack(e, r)
                == Some(Defect::MissingServer(r.cluster)))
        }),
        forall|i: int|
            r.side is Server && 0 <= i < e.clusters@.len() && (#[trigger] e.clusters@[i]).id == r.cluster && (forall|j: int|
                0 <= j < i ==> (#[trigger] e.clusters@[j]).id != r.cluster) ==> match lack(e, r) {
                None => (r.features >> bit) & 1 == 1 ==> (e.clusters@[i].feature_map >> bit) & 1 == 1,
                Some(Defect::MissingFeatures(cluster, missing)) => cluster == r.cluster && ((missing >> bit) & 1 == 1) == ((r.features
                    >> bit) & 1 == 1 && (e.clusters@[i].feature_map >> bit) & 1 == 0),
                _ => false,
            },
{
    let p = crate::dm::cluster_is(r.cluster);
    crate::bounded::lemma_first(e.clusters@, p);
    assert forall|j: int| 0 <= j < e.clusters@.len() implies p(#[trigger] e.clusters@[j]) == (e.clusters@[j].id == r.cluster) by {}
    if let Some(at) = crate::bounded::first(e.clusters@, p) {
        assert(p(e.clusters@[at]));
        assert(e.clusters@[at].id == r.cluster);
        let want = r.features;
        let have = e.clusters@[at].feature_map;
        assert((((want & !have) >> bit) & 1 == 1) == ((want >> bit) & 1 == 1 && (have >> bit) & 1 == 0)) by (bit_vector)
            requires
                bit < 32,
        ;
        assert(want & !have == 0 ==> ((want >> bit) & 1 == 1 ==> (have >> bit) & 1 == 1)) by (bit_vector)
            requires
                bit < 32,
        ;
    }
}

/// What an endpoint lacks is told requirement by requirement, in their order, and nothing else is told.
pub proof fn law_every_lack_is_told(e: Endpoint, requirements: Seq<Requirement>, n: int)
    requires
        0 <= n <= requirements.len(),
    ensures
        forall|i: int| 0 <= i < n && lack(e, #[trigger] requirements[i]) is Some ==> defects(e, requirements, n).contains(
            lack(e, requirements[i])->Some_0,
        ),
        forall|k: int|
            0 <= k < defects(e, requirements, n).len() ==> exists|i: int|
                0 <= i < n && lack(e, #[trigger] requirements[i]) == Some(#[trigger] defects(e, requirements, n)[k]),
        defects(e, requirements, n).len() <= n,
    decreases n,
{
    if n > 0 {
        law_every_lack_is_told(e, requirements, n - 1);
        let before = defects(e, requirements, n - 1);
        let after = defects(e, requirements, n);
        if let Some(d) = lack(e, requirements[n - 1]) {
            assert(after[before.len() as int] == d);
            assert forall|x: Defect| #[trigger] before.contains(x) implies after.contains(x) by {
                let k = choose|k: int| 0 <= k < before.len() && before[k] == x;
                assert(after[k] == x);
            }
            assert forall|k: int| 0 <= k < after.len() implies exists|i: int|
                0 <= i < n && lack(e, #[trigger] requirements[i]) == Some(#[trigger] after[k]) by {
                if k < before.len() {
                    assert(after[k] == before[k]);
                } else {
                    assert(lack(e, requirements[n - 1]) == Some(after[k]));
                }
            }
        }
    }
}

} // verus!
