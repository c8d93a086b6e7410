use vstd::prelude::*;
use crate::inventory::{classify, invalid_pods, members, pod_settled, NodeInformation, Pod};
use crate::pod::{is_decimal_suffix, template_of, OwnerReference, PodTemplate};
use crate::role::SparkNodeType;
use crate::topology::{DesiredTopology, RoleGroup};

verus! {

/// One change to the cluster's pods that a reconciliation pass asks for.
#[derive(Clone, Copy, Debug, PartialEq, Eq, Structural)]
pub enum PodAction {
    /// Create one pod for group `group` of the topology.
    Create { group: usize },
    /// Delete the listed pod `pod`, one too many in group `group`.
    Delete { group: usize, pod: usize },
}

/// What the control loop should do once a pass is over.
#[derive(Clone, Copy, Debug, PartialEq, Eq, Structural)]
pub enum ReconcileFunctionAction {
    /// Run again at once: more convergence work may remain.
    Continue,
    /// Nothing more to do in this cycle.
    Done,
    /// Pause for the given number of seconds, then run again.
    Requeue(u64),
}

/// The action for one bucket: delete its first pod when it holds too many,
/// create one pod when it holds too few. At most one pod per pass.
pub open spec fn bucket_action(bucket: Seq<usize>, g: int, instances: usize) -> Option<PodAction> {
    if bucket.len() > instances {
        Some(PodAction::Delete { group: g as usize, pod: bucket[0] })
    } else if bucket.len() < instances {
        Some(PodAction::Create { group: g as usize })
    } else {
        None
    }
}

/// The action that a pass takes for group `g` of the topology on the listed pods.
pub open spec fn group_action(pods: Seq<Pod>, groups: Seq<RoleGroup>, g: int) -> Option<PodAction> {
    bucket_action(members(pods, groups[g]), g, groups[g].instances)
}

/// The actions for the groups of `role` among the first `n` groups, in group order.
pub open spec fn role_actions(
    pods: Seq<Pod>,
    groups: Seq<RoleGroup>,
    role: SparkNodeType,
    n: int,
) -> Seq<PodAction>
    decreases n,
{
    if n <= 0 {
        seq![]
    } else {
        let rest = role_actions(pods, groups, role, n - 1);
        if groups[n - 1].role == role {
            match group_action(pods, groups, n - 1) {
                Some(a) => rest.push(a),
                None => rest,
            }
        } else {
            rest
        }
    }
}

/// The actions of a whole pass: masters first, then workers, then the history
/// server.
pub open spec fn cluster_actions(pods: Seq<Pod>, groups: Seq<RoleGroup>) -> Seq<PodAction> {
    role_actions(pods, groups, SparkNodeType::Master, groups.len() as int) + role_actions(
        pods,
        groups,
        SparkNodeType::Worker,
        groups.len() as int,
    ) + role_actions(pods, groups, SparkNodeType::HistoryServer, groups.len() as int)
}

/// The number of pods in the buckets of `role` among the first `n` groups.
pub open spec fn role_pod_count(
    pods: Seq<Pod>,
    groups: Seq<RoleGroup>,
    role: SparkNodeType,
    n: int,
) -> int
    decreases n,
{
    if n <= 0 {
        0
    } else {
        role_pod_count(pods, groups, role, n - 1) + if groups[n - 1].role == role {
            members(pods, groups[n - 1]).len() as int
        } else {
            0
        }
    }
}

impl NodeInformation {
    /// The number of classified pods of one role.
    pub fn get_pod_count(&self, topology: &DesiredTopology, node_type: SparkNodeType) -> (r:
        Option<usize>)
        requires
            self.buckets@.len() == topology.groups@.len(),
        ensures
            r matches Some(n) ==> n == self.count_of(topology.groups@, node_type,
                topology.groups@.len() as int),
            r is None ==> (self.count_of(topology.groups@, node_type, topology.groups@.len() as int)
                > usize::MAX),
    {
        self.count_pods(topology, node_type)
    }

    /// The number of pods in the buckets of `role` among the first `n` groups.
    pub open spec fn count_of(&self, groups: Seq<RoleGroup>, role: SparkNodeType, n: int) -> int
        decreases n,
    {
        if n <= 0 {
            0
        } else {
            self.count_of(groups, role, n - 1) + if groups[n - 1].role == role {
                self.buckets@[n - 1]@.len() as int
            } else {
                0
            }
        }
    }

    fn count_pods(&self, topology: &DesiredTopology, node_type: SparkNodeType) -> (r: Option<usize>)
        requires
            self.buckets@.len() == topology.groups@.len(),
        ensures
            r matches Some(n) ==> n == self.count_of(topology.groups@, node_type,
                topology.groups@.len() as int),
            r is None ==> (self.count_of(topology.groups@, node_type, topology.groups@.len() as int)
                > usize::MAX),
    {
        let groups = &topology.groups;
        let mut total: usize = 0;
        let mut g: usize = 0;
        while g < groups.len()
            invariant
                groups@ == topology.groups@,
                self.buckets@.len() == groups@.len(),
                g <= groups@.len(),
                total == self.count_of(groups@, node_type, g as int),
            decreases groups@.len() - g,
        {
            if groups[g].role == node_type {
                let len = self.buckets[g].len();
                if total > usize::MAX - len {
                    assert(self.count_of(groups@, node_type, g as int + 1) == total + len);
                    proof {
                        lemma_count_grows(self, groups@, node_type, g as int + 1, groups@.len() as int);
                    }
                    return None;
                }
                total = total + len;
            }
            g = g + 1;
        }
        Some(total)
    }
}

/// The count over a longer prefix of the groups is never smaller.
proof fn lemma_count_grows(
    info: &NodeInformation,
    groups: Seq<RoleGroup>,
    role: SparkNodeType,
    a: int,
    b: int,
)
    requires
        0 <= a <= b,
    ensures
        info.count_of(groups, role, a) <= info.count_of(groups, role, b),
    decreases b - a,
{
    if a < b {
        lemma_count_grows(info, groups, role, a, b - 1);
    }
}

/// The reconciliation state of one cluster during one pass: the cluster's
/// identity and the reference that its new pods carry to it, the desired
/// topology, the pods listed at the start of the pass and, once they have been
/// read, their classification.
pub struct SparkState {
    pub cluster_name: String,
    pub namespace: String,
    pub owner: OwnerReference,
    pub spec: DesiredTopology,
    pub pods: Vec<Pod>,
    pub node_information: Option<NodeInformation>,
}

impl SparkState {
    /// Any classification held is that of the held pods against the held topology.
    pub open spec fn inv(&self) -> bool {
        self.node_information matches Some(info) ==> info.classifies(self.pods@, self.spec.groups@)
    }

    /// The state at the start of a pass, before any pod has been read.
    pub fn new(
        cluster_name: String,
        namespace: String,
        owner: OwnerReference,
        spec: DesiredTopology,
    ) -> (r: SparkState)
        ensures
            r.cluster_name == cluster_name,
            r.namespace == namespace,
            r.owner == owner,
            r.spec == spec,
            r.pods@.len() == 0,
            r.node_information is None,
            r.inv(),
    {
        SparkState { cluster_name, namespace, owner, spec, pods: Vec::new(), node_information: None }
    }

    /// Takes the pods listed for this cluster, classifies them and returns the
    /// indices of those to delete: pods without both identity labels, with an
    /// unknown role, or with a hash that the topology no longer holds.
    pub fn read_existing_pod_information(&mut self, pods: Vec<Pod>) -> (r: Vec<usize>)
        ensures
            final(self).cluster_name == old(self).cluster_name,
            final(self).namespace == old(self).namespace,
            final(self).owner == old(self).owner,
            final(self).spec == old(self).spec,
            final(self).pods@ == pods@,
            final(self).node_information matches Some(info) && info.classifies(
                pods@,
                old(self).spec.groups@,
            ),
            r@ == invalid_pods(pods@, old(self).spec.groups@),
            final(self).inv(),
    {
        let info = classify(&pods, &self.spec);
        let mut to_delete: Vec<usize> = Vec::new();
        let mut i: usize = 0;
        while i < info.to_delete.len()
            invariant
                i <= info.to_delete@.len(),
                to_delete@ == info.to_delete@.take(i as int),
            decreases info.to_delete@.len() - i,
        {
            to_delete.push(info.to_delete[i]);
            i = i + 1;
            assert(to_delete@ =~= info.to_delete@.take(i as int));
        }
        assert(to_delete@ =~= info.to_delete@);
        self.pods = pods;
        self.node_information = Some(info);
        to_delete
    }

    /// The actions for the groups of one role, in group order.
    pub fn reconcile_node(&self, node_type: SparkNodeType) -> (r: Vec<PodAction>)
        requires
            self.inv(),
            self.node_information is Some,
        ensures
            r@ == role_actions(self.pods@, self.spec.groups@, node_type, self.spec.groups@.len() as int),
    {
        let info = match &self.node_information {
            Some(info) => info,
            None => {
                return Vec::new();
            },
        };
        let groups = &self.spec.groups;
        let mut r: Vec<PodAction> = Vec::new();
        let mut g: usize = 0;
        while g < groups.len()
            invariant
                groups@ == self.spec.groups@,
                info.classifies(self.pods@, groups@),
                g <= groups@.len(),
                r@ == role_actions(self.pods@, groups@, node_type, g as int),
            decreases groups@.len() - g,
        {
            if groups[g].role == node_type {
                let bucket = &info.buckets[g];
                let instances = groups[g].instances;
                assert(bucket@ == members(self.pods@, groups@[g as int]));
                if bucket.len() > instances {
                    r.push(PodAction::Delete { group: g, pod: bucket[0] });
                } else if bucket.len() < instances {
                    r.push(PodAction::Create { group: g });
                }
            }
            g = g + 1;
        }
        r
    }

    /// The pod that a `Create { group }` action asks for: it carries the role
    /// and hash labels of the group, lives in the cluster's namespace, is owned
    /// by the cluster alone, and is named `{cluster}-{role}-{hash}-{digits}`
    /// with fresh random digits.
    pub fn create_pod(&self, group: usize) -> (r: PodTemplate)
        requires
            group < self.spec.groups@.len(),
        ensures
            exists|suffix: Seq<char>|
                is_decimal_suffix(suffix) && template_of(
                    r,
                    self.cluster_name@,
                    self.namespace@,
                    self.owner,
                    self.spec.groups@[group as int],
                    suffix,
                ),
    {
        crate::pod::create_pod(
            self.cluster_name.as_str(),
            self.namespace.as_str(),
            &self.owner,
            &self.spec.groups[group],
        )
    }

    /// The actions of the pass, masters first, then workers, then the history
    /// server, and what the control loop should do next: `Done` where no pod has
    /// been read yet, else `Continue`.
    pub fn reconcile_cluster(&self) -> (r: (ReconcileFunctionAction, Vec<PodAction>))
        requires
            self.inv(),
        ensures
            self.node_information is None ==> r.0 == ReconcileFunctionAction::Done && r.1@.len() == 0,
            self.node_information is Some ==> r.0 == ReconcileFunctionAction::Continue && r.1@
                == cluster_actions(self.pods@, self.spec.groups@),
    {
        if self.node_information.is_none() {
            return (ReconcileFunctionAction::Done, Vec::new());
        }
        let mut r = self.reconcile_node(SparkNodeType::Master);
        let mut worker = self.reconcile_node(SparkNodeType::Worker);
        let mut history = self.reconcile_node(SparkNodeType::HistoryServer);
        r.append(&mut worker);
        r.append(&mut history);
        (ReconcileFunctionAction::Continue, r)
    }

    /// Whether every classified pod of `node_type` is settled: none is being
    /// deleted and all are running and ready. A pass that finds a pod in
    /// transition can wait before it disrupts the cluster further.
    pub fn check_pods_ready(&self, node_type: SparkNodeType) -> (r: bool)
        requires
            self.inv(),
            self.node_information is Some,
        ensures
            r == (forall|g: int, k: int|
                0 <= g < self.spec.groups@.len() && self.spec.groups@[g].role == node_type && 0 <= k
                    < members(self.pods@, self.spec.groups@[g]).len() ==> pod_settled(
                    #[trigger] self.pods@[members(self.pods@, self.spec.groups@[g])[k] as int],
                )),
    {
        let info = match &self.node_information {
            Some(info) => info,
            None => {
                return true;
            },
        };
        let groups = &self.spec.groups;
        let ghost pods = self.pods@;
        let n_pods = self.pods.len();
        let mut g: usize = 0;
        while g < groups.len()
            invariant
                groups@ == self.spec.groups@,
                pods == self.pods@,
                pods.len() == n_pods,
                info.classifies(pods, groups@),
                g <= groups@.len(),
                forall|h: int, k: int|
                    0 <= h < g && self.spec.groups@[h].role == node_type && 0 <= k < members(
                        self.pods@,
                        self.spec.groups@[h],
                    ).len() ==> pod_settled(
                        #[trigger] self.pods@[members(self.pods@, self.spec.groups@[h])[k] as int],
                    ),
            decreases groups@.len() - g,
        {
            if groups[g].role == node_type {
                let bucket = &info.buckets[g];
                assert(bucket@ == members(pods, groups@[g as int]));
                proof {
                    crate::inventory::lemma_members_bounded(pods, groups@[g as int]);
                }
                let mut k: usize = 0;
                while k < bucket.len()
                    invariant
                        bucket@ == members(pods, groups@[g as int]),
                        groups@ == self.spec.groups@,
                        g < groups@.len(),
                        groups@[g as int].role == node_type,
                        pods == self.pods@,
                        forall|q: int| 0 <= q < bucket@.len() ==> bucket@[q] < pods.len(),
                        k <= bucket@.len(),
                        forall|q: int| 0 <= q < k ==> pod_settled(#[trigger] pods[bucket@[q] as int]),
                    decreases bucket@.len() - k,
                {
                    let p = &self.pods[bucket[k]];
                    if p.deletion_stamp || !p.running_and_ready {
                        assert(!pod_settled(
                            self.pods@[members(self.pods@, self.spec.groups@[g as int])[k as int] as int],
                        ));
                        return false;
                    }
                    k = k + 1;
                }
                assert(forall|q: int|
                    0 <= q < members(self.pods@, self.spec.groups@[g as int]).len() ==> pod_settled(
                        #[trigger] self.pods@[members(self.pods@, self.spec.groups@[g as int])[q] as int],
                    ));
            }
            g = g + 1;
        }
        true
    }
}

} // verus!
