use vstd::prelude::*;
use crate::pod::OwnerReference;
use crate::reconcile::SparkState;
use crate::topology::DesiredTopology;

verus! {

/// Finalizer that guards the cleanup of a Spark cluster's resources.
pub const FINALIZER_NAME: &'static str = "spark.stackable.de/cleanup";

/// Seconds to wait before a pass that was asked to pause is run again.
pub const REQUEUE_SECONDS: u64 = 5;

/// How the control loop treats Spark clusters: which finalizer it sets and
/// the state each pass starts from.
#[derive(Debug)]
pub struct SparkStrategy {}

impl SparkStrategy {
    pub fn new() -> (r: SparkStrategy)
        ensures
            r == (SparkStrategy {}),
    {
        SparkStrategy {}
    }

    /// The name of the finalizer put on every Spark cluster.
    pub fn finalizer_name(&self) -> (r: String)
        ensures
            r@ == FINALIZER_NAME@,
    {
        String::from_str(FINALIZER_NAME)
    }

    /// The state a pass over one cluster starts from.
    pub fn init_reconcile_state(
        &self,
        cluster_name: String,
        namespace: String,
        owner: OwnerReference,
        spec: DesiredTopology,
    ) -> (r: SparkState)
        ensures
            r.cluster_name == cluster_name,
            r.namespace == namespace,
            r.owner == owner,
            r.spec == spec,
            r.pods@.len() == 0,
            r.node_information is None,
            r.inv(),
    {
        SparkState::new(cluster_name, namespace, owner, spec)
    }
}

} // verus!
