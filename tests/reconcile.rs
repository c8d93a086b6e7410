use spark_operator::{
    build_pod, classify, create_config_map_name, create_pod, create_pod_name, DesiredTopology,
    OwnerReference, Pod, PodAction, ReconcileFunctionAction, RoleGroup, SparkNodeType, SparkState, SparkStrategy,
};

fn group(role: SparkNodeType, hash: &str, instances: usize) -> RoleGroup {
    RoleGroup { role, hash: hash.to_string(), instances }
}

fn pod(name: &str, role: Option<&str>, hash: Option<&str>) -> Pod {
    Pod {
        name: name.to_string(),
        namespace: "default".to_string(),
        role_label: role.map(|r| r.to_string()),
        hash_label: hash.map(|h| h.to_string()),
        deletion_stamp: false,
        running_and_ready: true,
    }
}

fn owner() -> OwnerReference {
    OwnerReference {
        api_version: "spark.stackable.de/v1".to_string(),
        kind: "SparkCluster".to_string(),
        name: "spark".to_string(),
        uid: "1234-abcd".to_string(),
        controller: true,
    }
}

fn topology(groups: Vec<RoleGroup>) -> DesiredTopology {
    DesiredTopology::new(groups).unwrap()
}

fn pass(t: &DesiredTopology, pods: Vec<Pod>) -> (Vec<usize>, Vec<PodAction>) {
    let mut state = SparkState::new("spark".to_string(), "default".to_string(), owner(), t.clone());
    let deleted = state.read_existing_pod_information(pods);
    let (signal, actions) = state.reconcile_cluster();
    assert_eq!(signal, ReconcileFunctionAction::Continue);
    (deleted, actions)
}

/// The pods that remain once the deletions and creations of a pass are done.
fn apply(t: &DesiredTopology, pods: Vec<Pod>, n: &mut usize) -> (Vec<Pod>, usize) {
    let (deleted, actions) = pass(t, pods.clone());
    let mut gone: Vec<usize> = deleted.clone();
    let mut changes = deleted.len();
    let mut created = Vec::new();
    for a in actions {
        changes += 1;
        match a {
            PodAction::Delete { pod, .. } => gone.push(pod),
            PodAction::Create { group } => {
                let g = &t.groups[group];
                *n += 1;
                created.push(pod(&format!("p{}", n), Some(g.role.as_str()), Some(&g.hash)));
            }
        }
    }
    let mut next: Vec<Pod> = pods
        .into_iter()
        .enumerate()
        .filter(|(i, _)| !gone.contains(i))
        .map(|(_, p)| p)
        .collect();
    next.extend(created);
    (next, changes)
}

fn count(pods: &[Pod], role: &str, hash: &str) -> usize {
    pods.iter()
        .filter(|p| p.role_label.as_deref() == Some(role) && p.hash_label.as_deref() == Some(hash))
        .count()
}

#[test]
fn one_create_for_empty_cluster() {
    let t = topology(vec![group(SparkNodeType::Master, "h1", 1)]);
    let (deleted, actions) = pass(&t, vec![]);
    assert!(deleted.is_empty());
    assert_eq!(actions, vec![PodAction::Create { group: 0 }]);
}

#[test]
fn one_delete_for_one_pod_too_many() {
    let t = topology(vec![group(SparkNodeType::Master, "h1", 1)]);
    let pods = vec![pod("a", Some("master"), Some("h1")), pod("b", Some("master"), Some("h1"))];
    let (deleted, actions) = pass(&t, pods);
    assert!(deleted.is_empty());
    assert_eq!(actions.len(), 1);
    match actions[0] {
        PodAction::Delete { group, pod } => {
            assert_eq!(group, 0);
            assert!(pod == 0 || pod == 1);
        }
        _ => panic!("expected a deletion"),
    }
}

#[test]
fn pod_without_hash_is_deleted() {
    let t = topology(vec![group(SparkNodeType::Master, "h1", 1)]);
    let pods = vec![pod("a", Some("master"), None)];
    let info = classify(&pods, &t);
    assert_eq!(info.to_delete, vec![0]);
    assert!(info.buckets[0].is_empty());
}

#[test]
fn corrupt_pods_are_all_deleted() {
    let t = topology(vec![
        group(SparkNodeType::Master, "h1", 1),
        group(SparkNodeType::Worker, "w1", 2),
    ]);
    let pods = vec![
        pod("ok", Some("master"), Some("h1")),
        pod("no-role", None, Some("h1")),
        pod("bad-role", Some("driver"), Some("h1")),
        pod("stale", Some("worker"), Some("w0")),
        pod("no-labels", None, None),
        pod("wrong-role-for-hash", Some("worker"), Some("h1")),
        pod("worker", Some("worker"), Some("w1")),
    ];
    let info = classify(&pods, &t);
    assert_eq!(info.to_delete, vec![1, 2, 3, 4, 5]);
    assert_eq!(info.buckets, vec![vec![0], vec![6]]);
}

#[test]
fn passes_converge_and_then_stay() {
    let t = topology(vec![
        group(SparkNodeType::Master, "h1", 1),
        group(SparkNodeType::Worker, "w1", 3),
        group(SparkNodeType::Worker, "w2", 0),
        group(SparkNodeType::HistoryServer, "s1", 1),
    ]);
    let mut pods = vec![
        pod("m1", Some("master"), Some("h1")),
        pod("m2", Some("master"), Some("h1")),
        pod("m3", Some("master"), Some("h1")),
        pod("x", Some("master"), Some("old")),
        pod("w", Some("worker"), Some("w2")),
        pod("w'", Some("worker"), Some("w2")),
    ];
    let mut n = 0;
    // The largest distance is three (w1: 0 -> 3), so three passes suffice.
    for _ in 0..3 {
        let (next, _) = apply(&t, pods, &mut n);
        pods = next;
    }
    assert_eq!(count(&pods, "master", "h1"), 1);
    assert_eq!(count(&pods, "worker", "w1"), 3);
    assert_eq!(count(&pods, "worker", "w2"), 0);
    assert_eq!(count(&pods, "history-server", "s1"), 1);
    assert_eq!(pods.len(), 5);
    let (again, changes) = apply(&t, pods.clone(), &mut n);
    assert_eq!(changes, 0);
    assert_eq!(again.len(), pods.len());
}

#[test]
fn converged_cluster_needs_nothing() {
    let t = topology(vec![
        group(SparkNodeType::Master, "h1", 1),
        group(SparkNodeType::Worker, "w1", 2),
    ]);
    let pods = vec![
        pod("a", Some("worker"), Some("w1")),
        pod("b", Some("master"), Some("h1")),
        pod("c", Some("worker"), Some("w1")),
    ];
    let (deleted, actions) = pass(&t, pods);
    assert!(deleted.is_empty());
    assert!(actions.is_empty());
}

#[test]
fn changing_one_count_leaves_other_hashes_alone() {
    let pods = vec![
        pod("a", Some("worker"), Some("w1")),
        pod("b", Some("worker"), Some("w2")),
        pod("c", Some("worker"), Some("w2")),
    ];
    let t1 = topology(vec![
        group(SparkNodeType::Worker, "w1", 1),
        group(SparkNodeType::Worker, "w2", 1),
    ]);
    let t2 = topology(vec![
        group(SparkNodeType::Worker, "w1", 4),
        group(SparkNodeType::Worker, "w2", 1),
    ]);
    let (_, a1) = pass(&t1, pods.clone());
    let (_, a2) = pass(&t2, pods);
    assert_eq!(a1, vec![PodAction::Delete { group: 1, pod: 1 }]);
    assert_eq!(a2, vec![PodAction::Create { group: 0 }, PodAction::Delete { group: 1, pod: 1 }]);
}

#[test]
fn roles_are_reconciled_in_priority_order() {
    let t = topology(vec![
        group(SparkNodeType::HistoryServer, "s1", 1),
        group(SparkNodeType::Worker, "w1", 1),
        group(SparkNodeType::Master, "h1", 1),
    ]);
    let (_, actions) = pass(&t, vec![]);
    assert_eq!(
        actions,
        vec![
            PodAction::Create { group: 2 },
            PodAction::Create { group: 1 },
            PodAction::Create { group: 0 },
        ]
    );
}

#[test]
fn nothing_read_means_done() {
    let t = topology(vec![group(SparkNodeType::Master, "h1", 1)]);
    let state = SparkState::new("spark".to_string(), "default".to_string(), owner(), t);
    let (signal, actions) = state.reconcile_cluster();
    assert_eq!(signal, ReconcileFunctionAction::Done);
    assert!(actions.is_empty());
}

#[test]
fn duplicate_groups_are_refused() {
    assert!(DesiredTopology::new(vec![
        group(SparkNodeType::Master, "h1", 1),
        group(SparkNodeType::Master, "h1", 2),
    ])
    .is_none());
    assert!(DesiredTopology::new(vec![
        group(SparkNodeType::Master, "h1", 1),
        group(SparkNodeType::Worker, "h1", 2),
    ])
    .is_some());
}

#[test]
fn pod_count_per_role() {
    let t = topology(vec![
        group(SparkNodeType::Worker, "w1", 1),
        group(SparkNodeType::Master, "h1", 1),
        group(SparkNodeType::Worker, "w2", 1),
    ]);
    let pods = vec![
        pod("a", Some("worker"), Some("w1")),
        pod("b", Some("worker"), Some("w2")),
        pod("c", Some("worker"), Some("w2")),
        pod("d", Some("master"), Some("h1")),
        pod("e", Some("worker"), Some("w9")),
    ];
    let info = classify(&pods, &t);
    assert_eq!(info.get_pod_count(&t, SparkNodeType::Worker), Some(3));
    assert_eq!(info.get_pod_count(&t, SparkNodeType::Master), Some(1));
    assert_eq!(info.get_pod_count(&t, SparkNodeType::HistoryServer), Some(0));
}

#[test]
fn readiness_of_a_role() {
    let t = topology(vec![
        group(SparkNodeType::Master, "h1", 1),
        group(SparkNodeType::Worker, "w1", 2),
    ]);
    let mut terminating = pod("b", Some("worker"), Some("w1"));
    terminating.deletion_stamp = true;
    let mut starting = pod("c", Some("master"), Some("h1"));
    starting.running_and_ready = false;
    let pods = vec![pod("a", Some("worker"), Some("w1")), terminating, starting];
    let mut state = SparkState::new("spark".to_string(), "default".to_string(), owner(), t);
    state.read_existing_pod_information(pods);
    assert!(!state.check_pods_ready(SparkNodeType::Worker));
    assert!(!state.check_pods_ready(SparkNodeType::Master));
    assert!(state.check_pods_ready(SparkNodeType::HistoryServer));
}

#[test]
fn names_follow_the_scheme() {
    assert_eq!(create_config_map_name("spark", SparkNodeType::Worker, "abc"), "spark-worker-abc");
    assert_eq!(
        create_pod_name("spark", SparkNodeType::HistoryServer, "abc", "42"),
        "spark-history-server-abc-42"
    );
}

#[test]
fn pod_template_of_a_group() {
    let g = group(SparkNodeType::Master, "h1", 1);
    let t = build_pod("spark", "ns", &owner(), &g, "7");
    assert_eq!(t.name, "spark-master-h1-7");
    assert_eq!(t.namespace, "ns");
    assert_eq!(t.role_label, "master");
    assert_eq!(t.hash_label, "h1");
    assert_eq!(t.owner_references.len(), 1);
    assert_eq!(t.owner_references[0].kind, "SparkCluster");
    assert_eq!(t.owner_references[0].name, "spark");
    assert_eq!(t.owner_references[0].uid, "1234-abcd");
    assert_eq!(t.owner_references[0].api_version, "spark.stackable.de/v1");
    assert!(t.owner_references[0].controller);
    assert_eq!(t.container_name, "spark");
    assert_eq!(t.config_volume, "config-volume");
    assert_eq!(t.config_mount_path, "conf");
    assert_eq!(t.data_volume, "data-volume");
    assert_eq!(t.data_mount_path, "/tmp/spark-events");
    assert_eq!(t.image, "stackable/spark:3.0.1");
    assert_eq!(t.command, "sbin/start-master.sh");
    assert_eq!(t.config_map, "spark-master-h1-config");
    assert_eq!(t.data_map, "spark-master-h1-data");
}

#[test]
fn created_pods_get_a_random_decimal_suffix() {
    let g = group(SparkNodeType::Worker, "w1", 1);
    let t = create_pod("spark", "ns", &owner(), &g);
    let suffix = t.name.strip_prefix("spark-worker-w1-").unwrap();
    assert!(!suffix.is_empty() && suffix.len() <= 10);
    assert_eq!(t.owner_references.len(), 1);
    assert!(suffix.chars().all(|c| c.is_ascii_digit()));
    assert_eq!(t.config_map, "spark-worker-w1-config");
}

#[test]
fn role_labels() {
    assert_eq!(SparkNodeType::from_label("master"), Some(SparkNodeType::Master));
    assert_eq!(SparkNodeType::from_label("history-server"), Some(SparkNodeType::HistoryServer));
    assert_eq!(SparkNodeType::from_label("Master"), None);
    assert_eq!(SparkNodeType::Worker.as_str(), "worker");
    assert_eq!(SparkNodeType::Worker.get_command(), "sbin/start-slave.sh");
}

#[test]
fn strategy_finalizer() {
    let s = SparkStrategy::new();
    assert_eq!(s.finalizer_name(), "spark.stackable.de/cleanup");
    let state =
        s.init_reconcile_state("c".to_string(), "n".to_string(), owner(), topology(vec![]));
    assert!(state.node_information.is_none());
}

#[test]
fn state_creates_owned_pods_of_a_group() {
    let t = topology(vec![
        group(SparkNodeType::Master, "h1", 1),
        group(SparkNodeType::HistoryServer, "s1", 1),
    ]);
    let state = SparkState::new("spark".to_string(), "prod".to_string(), owner(), t);
    let p = state.create_pod(1);
    assert!(p.name.starts_with("spark-history-server-s1-"));
    assert_eq!(p.namespace, "prod");
    assert_eq!(p.role_label, "history-server");
    assert_eq!(p.hash_label, "s1");
    assert_eq!(p.owner_references.len(), 1);
    assert_eq!(p.owner_references[0].uid, "1234-abcd");
    assert_eq!(p.data_map, "spark-history-server-s1-data");
}
