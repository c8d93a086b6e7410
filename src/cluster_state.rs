use vstd::prelude::*;

verus! {

/// Status snapshot of one Spark master, as its `/json` endpoint reports it.
#[derive(Clone, Debug)]
pub struct SparkMasterState {
    pub url: String,
    pub workers: Vec<SparkWorkerState>,
    pub alive_workers: usize,
    pub active_apps: Vec<SparkApplication>,
    pub completed_apps: Vec<SparkApplication>,
    pub status: String,
}

/// One worker as a master reports it.
#[derive(Clone, Debug)]
pub struct SparkWorkerState {
    pub id: String,
    pub host: String,
    pub port: usize,
    pub web_ui_address: String,
    pub cores: usize,
    pub memory: usize,
    pub memory_used: usize,
    pub memory_free: usize,
    pub state: String,
    pub last_heartbeat: usize,
}

/// One application as a master reports it.
#[derive(Clone, Debug)]
pub struct SparkApplication {
    pub id: String,
    pub start_time: usize,
    pub name: String,
    pub cores: usize,
    pub memory_per_slave: usize,
    pub submit_date: String,
    pub state: SparkApplicationState,
    pub duration: usize,
}

/// The lifecycle state of an application.
#[allow(non_camel_case_types)]
#[derive(Clone, Copy, Debug, PartialEq, Eq, Structural)]
pub enum SparkApplicationState {
    FAILED,
    FINISHED,
    RUNNING,
    WAITING,
}

/// Why one endpoint gave no master state.
#[derive(Clone, Copy, Debug, PartialEq, Eq, Structural)]
pub enum ProbeError {
    /// The request could not be sent or got no response.
    Connection,
    /// The response body could not be read.
    Read,
    /// The body is not a master state.
    Parse,
}

impl SparkApplication {
    /// A copy of this application record.
    pub fn duplicate(&self) -> (r: SparkApplication)
        ensures
            r == *self,
    {
        SparkApplication {
            id: self.id.clone(),
            start_time: self.start_time,
            name: self.name.clone(),
            cores: self.cores,
            memory_per_slave: self.memory_per_slave,
            submit_date: self.submit_date.clone(),
            state: self.state,
            duration: self.duration,
        }
    }
}

/// The master states of the endpoints that answered, in endpoint order.
pub open spec fn successes(rs: Seq<Result<SparkMasterState, ProbeError>>) -> Seq<SparkMasterState>
    decreases rs.len(),
{
    if rs.len() == 0 {
        seq![]
    } else {
        let rest = successes(rs.drop_last());
        match rs.last() {
            Ok(s) => rest.push(s),
            Err(_) => rest,
        }
    }
}

/// The applications of `apps` in the RUNNING state, in order.
pub open spec fn running_of(apps: Seq<SparkApplication>) -> Seq<SparkApplication>
    decreases apps.len(),
{
    if apps.len() == 0 {
        seq![]
    } else {
        let rest = running_of(apps.drop_last());
        if apps.last().state == SparkApplicationState::RUNNING {
            rest.push(apps.last())
        } else {
            rest
        }
    }
}

/// The running active applications of all the given masters, master by master.
pub open spec fn running_apps(states: Seq<SparkMasterState>) -> Seq<SparkApplication>
    decreases states.len(),
{
    if states.len() == 0 {
        seq![]
    } else {
        running_apps(states.drop_last()) + running_of(states.last().active_apps@)
    }
}

/// Keeps the master states of the endpoints that answered with one, in
/// endpoint order; an endpoint that failed is skipped.
pub fn request_states(responses: Vec<Result<SparkMasterState, ProbeError>>) -> (r: Vec<
    SparkMasterState,
>)
    ensures
        r@ == successes(responses@),
{
    let ghost all = responses@;
    let n = responses.len();
    let mut rest = responses;
    let mut r: Vec<SparkMasterState> = Vec::new();
    let mut i: usize = 0;
    while rest.len() > 0
        invariant
            i + rest@.len() == all.len(),
            all.len() == n,
            rest@ == all.skip(i as int),
            r@ == successes(all.take(i as int)),
        decreases rest@.len(),
    {
        assert(all.take(i + 1).drop_last() =~= all.take(i as int));
        assert(all.take(i + 1).last() == rest@[0]);
        let first = rest.remove(0);
        match first {
            Ok(s) => r.push(s),
            Err(_) => {},
        }
        i = i + 1;
        assert(rest@ =~= all.skip(i as int));
    }
    assert(all.take(i as int) =~= all);
    r
}

/// The running applications of all masters that answered: the active
/// applications in the RUNNING state, master by master. Endpoints that failed
/// contribute nothing and do not stop the others from being read.
pub fn get_running_applications(responses: Vec<Result<SparkMasterState, ProbeError>>) -> (r: Vec<
    SparkApplication,
>)
    ensures
        r@ == running_apps(successes(responses@)),
{
    let states = request_states(responses);
    let mut r: Vec<SparkApplication> = Vec::new();
    let mut i: usize = 0;
    while i < states.len()
        invariant
            i <= states@.len(),
            r@ == running_apps(states@.take(i as int)),
        decreases states@.len() - i,
    {
        let apps = &states[i].active_apps;
        let ghost before = r@;
        assert(states@.take(i + 1).drop_last() =~= states@.take(i as int));
        let mut j: usize = 0;
        while j < apps.len()
            invariant
                j <= apps@.len(),
                r@ == before + running_of(apps@.take(j as int)),
            decreases apps@.len() - j,
        {
            assert(apps@.take(j + 1).drop_last() =~= apps@.take(j as int));
            if apps[j].state == SparkApplicationState::RUNNING {
                r.push(apps[j].duplicate());
            }
            j = j + 1;
            assert(r@ =~= before + running_of(apps@.take(j as int)));
        }
        assert(apps@.take(apps@.len() as int) =~= apps@);
        i = i + 1;
    }
    assert(states@.take(states@.len() as int) =~= states@);
    r
}

/// Answers are kept independently of one another: the states kept from two
/// runs of endpoints are those kept from each, one after the other.
pub proof fn lemma_successes_concat(
    a: Seq<Result<SparkMasterState, ProbeError>>,
    b: Seq<Result<SparkMasterState, ProbeError>>,
)
    ensures
        successes(a + b) == successes(a) + successes(b),
    decreases b.len(),
{
    if b.len() == 0 {
        assert(a + b =~= a);
        assert(successes(a) + successes(b) =~= successes(a));
    } else {
        lemma_successes_concat(a, b.drop_last());
        assert((a + b).drop_last() =~= a + b.drop_last());
        assert((a + b).last() == b.last());
        match b.last() {
            Ok(s) => {
                assert(successes(a) + successes(b.drop_last()).push(s) =~= (successes(a)
                    + successes(b.drop_last())).push(s));
            },
            Err(_) => {},
        }
    }
}

/// Whichever endpoints fail, and however they fail, the probe returns the
/// same running applications as when only the endpoints that answered are
/// asked: a failure inserted at any place changes nothing.
pub proof fn lemma_probe_ignores_failure(
    responses: Seq<Result<SparkMasterState, ProbeError>>,
    k: int,
    e: ProbeError,
)
    requires
        0 <= k <= responses.len(),
    ensures
        running_apps(successes(responses.insert(k, Err(e)))) == running_apps(successes(responses)),
{
    let a = responses.take(k);
    let b = responses.skip(k);
    let one = seq![Err::<SparkMasterState, ProbeError>(e)];
    assert(responses =~= a + b);
    assert(responses.insert(k, Err(e)) =~= (a + one) + b);
    lemma_successes_concat(a + one, b);
    lemma_successes_concat(a, one);
    lemma_successes_concat(a, b);
    assert(one.drop_last() =~= Seq::<Result<SparkMasterState, ProbeError>>::empty());
    assert(one.last() == Err::<SparkMasterState, ProbeError>(e));
    assert(successes(one.drop_last()) =~= Seq::<SparkMasterState>::empty());
    assert(successes(one) =~= Seq::<SparkMasterState>::empty());
    assert(successes(a) + Seq::<SparkMasterState>::empty() =~= successes(a));
}

/// A master with no active application contributes no running application,
/// wherever it stands among the answers.
pub proof fn lemma_idle_master_contributes_nothing(states: Seq<SparkMasterState>, k: int)
    requires
        0 <= k < states.len(),
        states[k].active_apps@.len() == 0,
    ensures
        running_apps(states) == running_apps(states.remove(k)),
    decreases states.len(),
{
    if k == states.len() - 1 {
        assert(states.remove(k) =~= states.drop_last());
        assert(running_of(states[k].active_apps@) =~= Seq::<SparkApplication>::empty());
        assert(running_apps(states) =~= running_apps(states.drop_last()));
    } else {
        lemma_idle_master_contributes_nothing(states.drop_last(), k);
        assert(states.remove(k).drop_last() =~= states.drop_last().remove(k));
        assert(states.remove(k).last() == states.last());
    }
}

} // verus!
