use vstd::prelude::*;

verus! {

/// The fixed set of workload kinds that make up a Spark cluster.
#[derive(Clone, Copy, Debug, PartialEq, Eq, Structural)]
pub enum SparkNodeType {
    Master,
    Worker,
    HistoryServer,
}

/// The label text that stands for each role.
pub open spec fn role_name(role: SparkNodeType) -> Seq<char> {
    match role {
        SparkNodeType::Master => "master"@,
        SparkNodeType::Worker => "worker"@,
        SparkNodeType::HistoryServer => "history-server"@,
    }
}

/// The role that a label text names, if any.
pub open spec fn parse_role(s: Seq<char>) -> Option<SparkNodeType> {
    if s == "master"@ {
        Some(SparkNodeType::Master)
    } else if s == "worker"@ {
        Some(SparkNodeType::Worker)
    } else if s == "history-server"@ {
        Some(SparkNodeType::HistoryServer)
    } else {
        None
    }
}

/// The program that a container of each role runs.
pub open spec fn role_command(role: SparkNodeType) -> Seq<char> {
    match role {
        SparkNodeType::Master => "sbin/start-master.sh"@,
        SparkNodeType::Worker => "sbin/start-slave.sh"@,
        SparkNodeType::HistoryServer => "sbin/start-history-server.sh"@,
    }
}

impl SparkNodeType {
    /// The label text of this role.
    pub fn as_str(&self) -> (r: &'static str)
        ensures
            r@ == role_name(*self),
    {
        match self {
            SparkNodeType::Master => "master",
            SparkNodeType::Worker => "worker",
            SparkNodeType::HistoryServer => "history-server",
        }
    }

    /// Reads a role label; `None` for text that names no role.
    pub fn from_label(s: &str) -> (r: Option<SparkNodeType>)
        ensures
            r == parse_role(s@),
    {
        let owned = String::from_str(s);
        if owned == String::from_str("master") {
            Some(SparkNodeType::Master)
        } else if owned == String::from_str("worker") {
            Some(SparkNodeType::Worker)
        } else if owned == String::from_str("history-server") {
            Some(SparkNodeType::HistoryServer)
        } else {
            None
        }
    }

    /// The start script that a container of this role runs.
    pub fn get_command(&self) -> (r: &'static str)
        ensures
            r@ == role_command(*self),
    {
        match self {
            SparkNodeType::Master => "sbin/start-master.sh",
            SparkNodeType::Worker => "sbin/start-slave.sh",
            SparkNodeType::HistoryServer => "sbin/start-history-server.sh",
        }
    }
}

/// Each role's label text reads back as that role.
pub proof fn lemma_role_name_parses(role: SparkNodeType)
    ensures
        parse_role(role_name(role)) == Some(role),
{
    reveal_strlit("master");
    reveal_strlit("worker");
    reveal_strlit("history-server");
    assert("master"@[0] != "worker"@[0]);
    assert("master"@.len() != "history-server"@.len());
    assert("worker"@.len() != "history-server"@.len());
}

} // verus!
