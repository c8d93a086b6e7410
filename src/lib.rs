//! Pod inventory classification, replica reconciliation and cluster-state
//! probing for a Spark master/worker/history-server deployment.
//!
//! Each pass is computed from plain values: the desired topology and the pods
//! listed at its start go in; the pods to delete, the creations and deletions
//! that bring each role group one step toward its desired size, and the signal
//! for the control loop come out. The caller performs the actions.
pub mod cluster_state;
pub mod convergence;
pub mod inventory;
pub mod pod;
pub mod reconcile;
pub mod role;
pub mod strategy;
pub mod topology;

pub use cluster_state::{
    get_running_applications, request_states, ProbeError, SparkApplication, SparkApplicationState,
    SparkMasterState, SparkWorkerState,
};
pub use inventory::{classify, NodeInformation, Pod, HASH_LABEL, TYPE_LABEL};
pub use pod::{
    build_pod, create_config_map_name, create_pod, create_pod_name, OwnerReference, PodTemplate, CONFIG_MOUNT_PATH,
    CONFIG_VOLUME, CONTAINER_NAME, DATA_MOUNT_PATH, DATA_VOLUME, IMAGE,
};
pub use reconcile::{PodAction, ReconcileFunctionAction, SparkState};
pub use role::SparkNodeType;
pub use strategy::{SparkStrategy, FINALIZER_NAME, REQUEUE_SECONDS};
pub use topology::{DesiredTopology, RoleGroup};
