use spark_operator::{
    get_running_applications, request_states, ProbeError, SparkApplication,
    SparkApplicationState, SparkMasterState,
};

fn app(id: &str, state: SparkApplicationState) -> SparkApplication {
    SparkApplication {
        id: id.to_string(),
        start_time: 1,
        name: format!("job-{}", id),
        cores: 2,
        memory_per_slave: 1024,
        submit_date: "today".to_string(),
        state,
        duration: 10,
    }
}

fn master(url: &str, active: Vec<SparkApplication>) -> SparkMasterState {
    SparkMasterState {
        url: url.to_string(),
        workers: vec![],
        alive_workers: 0,
        active_apps: active,
        completed_apps: vec![],
        status: "ALIVE".to_string(),
    }
}

#[test]
fn only_the_running_app_of_the_answering_master() {
    let responses = vec![
        Ok(master(
            "spark://a:7077",
            vec![app("r", SparkApplicationState::RUNNING), app("f", SparkApplicationState::FINISHED)],
        )),
        Err(ProbeError::Connection),
        Err(ProbeError::Parse),
    ];
    let running = get_running_applications(responses);
    assert_eq!(running.len(), 1);
    assert_eq!(running[0].id, "r");
    assert_eq!(running[0].state, SparkApplicationState::RUNNING);
}

#[test]
fn failures_anywhere_change_nothing() {
    let a = master("a", vec![app("1", SparkApplicationState::RUNNING)]);
    let b = master(
        "b",
        vec![app("2", SparkApplicationState::WAITING), app("3", SparkApplicationState::RUNNING)],
    );
    let all_ok = get_running_applications(vec![Ok(a.clone()), Ok(b.clone())]);
    let with_failures = get_running_applications(vec![
        Err(ProbeError::Read),
        Ok(a),
        Err(ProbeError::Connection),
        Ok(b),
        Err(ProbeError::Parse),
    ]);
    let ids = |v: &Vec<SparkApplication>| v.iter().map(|x| x.id.clone()).collect::<Vec<_>>();
    assert_eq!(ids(&all_ok), vec!["1", "3"]);
    assert_eq!(ids(&with_failures), ids(&all_ok));
}

#[test]
fn idle_masters_and_no_answers_give_nothing() {
    assert!(get_running_applications(vec![]).is_empty());
    assert!(get_running_applications(vec![Err(ProbeError::Connection)]).is_empty());
    let idle = master("a", vec![]);
    assert!(get_running_applications(vec![Ok(idle)]).is_empty());
}

#[test]
fn answering_masters_kept_in_order() {
    let states = request_states(vec![
        Ok(master("a", vec![])),
        Err(ProbeError::Parse),
        Ok(master("b", vec![])),
    ]);
    let urls: Vec<String> = states.iter().map(|s| s.url.clone()).collect();
    assert_eq!(urls, vec!["a", "b"]);
}
