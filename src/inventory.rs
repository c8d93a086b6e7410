use vstd::prelude::*;
use crate::role::{parse_role, SparkNodeType};
use crate::topology::{same_key, DesiredTopology, RoleGroup};

verus! {

/// Label key that carries a pod's role.
pub const TYPE_LABEL: &'static str = "spark.stackable.de/type";

/// Label key that carries a pod's configuration hash.
pub const HASH_LABEL: &'static str = "spark.stackable.de/hash";

/// A pod as listed by the cluster API: its identity, the values of its two
/// identity labels, whether its deletion has begun, and whether it is running
/// with all its containers ready.
#[derive(Clone, Debug)]
pub struct Pod {
    pub name: String,
    pub namespace: String,
    pub role_label: Option<String>,
    pub hash_label: Option<String>,
    pub deletion_stamp: bool,
    pub running_and_ready: bool,
}

/// The pod is neither being deleted nor short of running and ready.
pub open spec fn pod_settled(p: Pod) -> bool {
    !p.deletion_stamp && p.running_and_ready
}

/// The pod carries both labels, its role label names `g`'s role and its hash
/// label is `g`'s hash.
pub open spec fn pod_in_group(p: Pod, g: RoleGroup) -> bool {
    match (p.role_label, p.hash_label) {
        (Some(r), Some(h)) => parse_role(r@) == Some(g.role) && h@ == g.hash@,
        _ => false,
    }
}

/// The pod belongs to some group of the desired topology.
pub open spec fn pod_valid(p: Pod, groups: Seq<RoleGroup>) -> bool {
    exists|j: int| 0 <= j < groups.len() && #[trigger] pod_in_group(p, groups[j])
}

/// Indices of the pods that belong to group `g`, in listing order.
pub open spec fn members(pods: Seq<Pod>, g: RoleGroup) -> Seq<usize>
    decreases pods.len(),
{
    if pods.len() == 0 {
        seq![]
    } else {
        let rest = members(pods.drop_last(), g);
        if pod_in_group(pods.last(), g) {
            rest.push((pods.len() - 1) as usize)
        } else {
            rest
        }
    }
}

/// Indices of the pods that belong to no group (missing or unknown labels, or
/// a hash that is no longer desired), in listing order.
pub open spec fn invalid_pods(pods: Seq<Pod>, groups: Seq<RoleGroup>) -> Seq<usize>
    decreases pods.len(),
{
    if pods.len() == 0 {
        seq![]
    } else {
        let rest = invalid_pods(pods.drop_last(), groups);
        if !pod_valid(pods.last(), groups) {
            rest.push((pods.len() - 1) as usize)
        } else {
            rest
        }
    }
}

/// The classified inventory of one pass: `buckets[g]` holds the indices of the
/// pods of group `g` of the topology, `to_delete` those of the pods that no
/// group takes. Indices refer to the listed pods.
#[derive(Clone, Debug)]
pub struct NodeInformation {
    pub buckets: Vec<Vec<usize>>,
    pub to_delete: Vec<usize>,
}

impl NodeInformation {
    /// This inventory is the classification of `pods` against `groups`.
    pub open spec fn classifies(&self, pods: Seq<Pod>, groups: Seq<RoleGroup>) -> bool {
        &&& self.buckets@.len() == groups.len()
        &&& forall|g: int|
            0 <= g < groups.len() ==> (#[trigger] self.buckets@[g])@ == members(pods, groups[g])
        &&& self.to_delete@ == invalid_pods(pods, groups)
    }
}

fn pod_matches(p: &Pod, g: &RoleGroup) -> (r: bool)
    ensures
        r == pod_in_group(*p, *g),
{
    match (&p.role_label, &p.hash_label) {
        (Some(r), Some(h)) => {
            match SparkNodeType::from_label(r.as_str()) {
                Some(role) => role == g.role && *h == g.hash,
                None => false,
            }
        },
        _ => false,
    }
}

fn is_valid(p: &Pod, groups: &Vec<RoleGroup>) -> (r: bool)
    ensures
        r == pod_valid(*p, groups@),
{
    let mut j: usize = 0;
    while j < groups.len()
        invariant
            j <= groups@.len(),
            forall|k: int| 0 <= k < j ==> !pod_in_group(*p, #[trigger] groups@[k]),
        decreases groups@.len() - j,
    {
        if pod_matches(p, &groups[j]) {
            return true;
        }
        j = j + 1;
    }
    false
}

fn bucket_of(pods: &Vec<Pod>, g: &RoleGroup) -> (r: Vec<usize>)
    ensures
        r@ == members(pods@, *g),
{
    let mut r: Vec<usize> = Vec::new();
    let mut i: usize = 0;
    while i < pods.len()
        invariant
            i <= pods@.len(),
            r@ == members(pods@.take(i as int), *g),
        decreases pods@.len() - i,
    {
        assert(pods@.take(i + 1).drop_last() =~= pods@.take(i as int));
        if pod_matches(&pods[i], g) {
            r.push(i);
        }
        i = i + 1;
    }
    assert(pods@.take(pods@.len() as int) =~= pods@);
    r
}

/// Sorts the listed pods into the buckets of the topology's groups, in listing
/// order, and lists the pods that belong to no group for deletion. Every pod is
/// looked at: a corrupt pod does not stop the classification of the others.
pub fn classify(pods: &Vec<Pod>, topology: &DesiredTopology) -> (r: NodeInformation)
    ensures
        r.classifies(pods@, topology.groups@),
{
    let groups = &topology.groups;
    let mut to_delete: Vec<usize> = Vec::new();
    let mut i: usize = 0;
    while i < pods.len()
        invariant
            i <= pods@.len(),
            to_delete@ == invalid_pods(pods@.take(i as int), groups@),
        decreases pods@.len() - i,
    {
        assert(pods@.take(i + 1).drop_last() =~= pods@.take(i as int));
        if !is_valid(&pods[i], groups) {
            to_delete.push(i);
        }
        i = i + 1;
    }
    assert(pods@.take(pods@.len() as int) =~= pods@);
    let mut buckets: Vec<Vec<usize>> = Vec::new();
    let mut g: usize = 0;
    while g < groups.len()
        invariant
            g <= groups@.len(),
            buckets@.len() == g,
            forall|k: int| 0 <= k < g ==> (#[trigger] buckets@[k])@ == members(pods@, groups@[k]),
        decreases groups@.len() - g,
    {
        let b = bucket_of(pods, &groups[g]);
        buckets.push(b);
        g = g + 1;
    }
    NodeInformation { buckets, to_delete }
}

/// An index is among the members of `g` exactly when the pod there belongs to `g`.
pub proof fn lemma_members_contains(pods: Seq<Pod>, g: RoleGroup, i: int)
    requires
        0 <= i < pods.len(),
        pods.len() <= usize::MAX,
    ensures
        members(pods, g).contains(i as usize) <==> pod_in_group(pods[i], g),
    decreases pods.len(),
{
    lemma_members_bounded(pods.drop_last(), g);
    if i < pods.len() - 1 {
        lemma_members_contains(pods.drop_last(), g, i);
        if pod_in_group(pods.last(), g) {
            let rest = members(pods.drop_last(), g);
            if members(pods, g).contains(i as usize) {
                let k = choose|k: int| 0 <= k < members(pods, g).len() && members(pods, g)[k] == i as usize;
                if k < rest.len() {
                    assert(rest[k] == i as usize);
                }
            }
            if rest.contains(i as usize) {
                let k = choose|k: int| 0 <= k < rest.len() && rest[k] == i as usize;
                assert(members(pods, g)[k] == i as usize);
            }
        }
    } else {
        let rest = members(pods.drop_last(), g);
        if pod_in_group(pods.last(), g) {
            assert(members(pods, g)[rest.len() as int] == i as usize);
        } else {
            if rest.contains(i as usize) {
                let k = choose|k: int| 0 <= k < rest.len() && rest[k] == i as usize;
                assert(rest[k] < pods.len() - 1);
            }
        }
    }
}

/// Every member index lies below the number of pods.
pub proof fn lemma_members_bounded(pods: Seq<Pod>, g: RoleGroup)
    requires
        pods.len() <= usize::MAX,
    ensures
        forall|k: int| 0 <= k < members(pods, g).len() ==> members(pods, g)[k] < pods.len(),
    decreases pods.len(),
{
    if pods.len() > 0 {
        lemma_members_bounded(pods.drop_last(), g);
        let rest = members(pods.drop_last(), g);
        assert forall|k: int| 0 <= k < members(pods, g).len() implies members(pods, g)[k] < pods.len() by {
            if k < rest.len() {
                assert(members(pods, g)[k] == rest[k]);
            }
        }
    }
}

/// An index is listed for deletion exactly when the pod there belongs to no group.
pub proof fn lemma_invalid_contains(pods: Seq<Pod>, groups: Seq<RoleGroup>, i: int)
    requires
        0 <= i < pods.len(),
        pods.len() <= usize::MAX,
    ensures
        invalid_pods(pods, groups).contains(i as usize) <==> !pod_valid(pods[i], groups),
    decreases pods.len(),
{
    lemma_invalid_bounded(pods.drop_last(), groups);
    let rest = invalid_pods(pods.drop_last(), groups);
    let all = invalid_pods(pods, groups);
    if i < pods.len() - 1 {
        lemma_invalid_contains(pods.drop_last(), groups, i);
        if !pod_valid(pods.last(), groups) {
            if all.contains(i as usize) {
                let k = choose|k: int| 0 <= k < all.len() && all[k] == i as usize;
                if k < rest.len() {
                    assert(rest[k] == i as usize);
                }
            }
            if rest.contains(i as usize) {
                let k = choose|k: int| 0 <= k < rest.len() && rest[k] == i as usize;
                assert(all[k] == i as usize);
            }
        }
    } else {
        if !pod_valid(pods.last(), groups) {
            assert(all[rest.len() as int] == i as usize);
        } else {
            if rest.contains(i as usize) {
                let k = choose|k: int| 0 <= k < rest.len() && rest[k] == i as usize;
                assert(rest[k] < pods.len() - 1);
            }
        }
    }
}

/// Every index listed for deletion lies below the number of pods.
pub proof fn lemma_invalid_bounded(pods: Seq<Pod>, groups: Seq<RoleGroup>)
    requires
        pods.len() <= usize::MAX,
    ensures
        forall|k: int|
            0 <= k < invalid_pods(pods, groups).len() ==> invalid_pods(pods, groups)[k] < pods.len(),
    decreases pods.len(),
{
    if pods.len() > 0 {
        lemma_invalid_bounded(pods.drop_last(), groups);
        let rest = invalid_pods(pods.drop_last(), groups);
        let all = invalid_pods(pods, groups);
        assert forall|k: int| 0 <= k < all.len() implies all[k] < pods.len() by {
            if k < rest.len() {
                assert(all[k] == rest[k]);
            }
        }
    }
}

/// A pod that lacks a label, names no known role, or carries a hash that the
/// topology does not hold for its role is always listed for deletion, and no
/// bucket of the inventory holds it.
pub proof fn lemma_corrupt_pod_removed(
    pods: Seq<Pod>,
    topology: DesiredTopology,
    info: NodeInformation,
    i: int,
)
    requires
        pods.len() <= usize::MAX,
        0 <= i < pods.len(),
        info.classifies(pods, topology.groups@),
        ({
            let p = pods[i];
            ||| p.role_label.is_none()
            ||| p.hash_label.is_none()
            ||| parse_role(p.role_label.unwrap()@).is_none()
            ||| forall|g: int|
                0 <= g < topology.groups@.len() ==> !(topology.groups@[g].role == parse_role(
                    p.role_label.unwrap()@,
                ).unwrap() && topology.groups@[g].hash@ == p.hash_label.unwrap()@)
        }),
    ensures
        info.to_delete@.contains(i as usize),
        forall|g: int|
            0 <= g < info.buckets@.len() ==> !(#[trigger] info.buckets@[g])@.contains(i as usize),
{
    let groups = topology.groups@;
    assert(!pod_valid(pods[i], groups));
    lemma_invalid_contains(pods, groups, i);
    assert forall|g: int| 0 <= g < info.buckets@.len() implies !(
    #[trigger] info.buckets@[g])@.contains(i as usize) by {
        lemma_members_contains(pods, groups[g], i);
        assert(!pod_in_group(pods[i], groups[g]));
    }
}

/// A pod that belongs to a group of the topology is kept, in the bucket of
/// that group and of no other.
pub proof fn lemma_valid_pod_kept(
    pods: Seq<Pod>,
    topology: DesiredTopology,
    info: NodeInformation,
    i: int,
    g: int,
)
    requires
        topology.wf(),
        pods.len() <= usize::MAX,
        0 <= i < pods.len(),
        0 <= g < topology.groups@.len(),
        pod_in_group(pods[i], topology.groups@[g]),
        info.classifies(pods, topology.groups@),
    ensures
        !info.to_delete@.contains(i as usize),
        info.buckets@[g]@.contains(i as usize),
        forall|h: int|
            0 <= h < info.buckets@.len() && h != g ==> !(
            #[trigger] info.buckets@[h])@.contains(i as usize),
{
    let groups = topology.groups@;
    lemma_invalid_contains(pods, groups, i);
    lemma_members_contains(pods, groups[g], i);
    assert forall|h: int| 0 <= h < info.buckets@.len() && h != g implies !(
    #[trigger] info.buckets@[h])@.contains(i as usize) by {
        lemma_members_contains(pods, groups[h], i);
        if pod_in_group(pods[i], groups[h]) {
            if g < h {
                assert(!same_key(groups[g], groups[h]));
            } else {
                assert(!same_key(groups[h], groups[g]));
            }
        }
    }
}

} // verus!
