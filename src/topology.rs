use vstd::prelude::*;
use crate::role::SparkNodeType;

verus! {

/// One role group of the desired topology: how many pods of a role should run
/// with the configuration that `hash` identifies.
#[derive(Clone, Debug)]
pub struct RoleGroup {
    pub role: SparkNodeType,
    pub hash: String,
    pub instances: usize,
}

/// Two groups of one role with the same configuration hash.
pub open spec fn same_key(a: RoleGroup, b: RoleGroup) -> bool {
    a.role == b.role && a.hash@ == b.hash@
}

/// No (role, hash) pair occurs twice.
pub open spec fn keys_unique(groups: Seq<RoleGroup>) -> bool {
    forall|i: int, j: int|
        0 <= i < j < groups.len() ==> !same_key(#[trigger] groups[i], #[trigger] groups[j])
}

/// The desired replica counts, one entry per (role, configuration hash).
#[derive(Clone, Debug)]
pub struct DesiredTopology {
    pub groups: Vec<RoleGroup>,
}

impl DesiredTopology {
    /// Each (role, hash) pair has a single desired count.
    pub open spec fn wf(&self) -> bool {
        keys_unique(self.groups@)
    }

    /// Builds a topology; `None` where a (role, hash) pair is given twice.
    pub fn new(groups: Vec<RoleGroup>) -> (r: Option<DesiredTopology>)
        ensures
            r.is_some() <==> keys_unique(groups@),
            r matches Some(t) ==> t.groups@ == groups@,
    {
        let n = groups.len();
        let mut j: usize = 0;
        while j < n
            invariant
                n == groups@.len(),
                j <= n,
                forall|a: int, b: int|
                    0 <= a < b < j ==> !same_key(#[trigger] groups@[a], #[trigger] groups@[b]),
            decreases n - j,
        {
            let mut i: usize = 0;
            while i < j
                invariant
                    n == groups@.len(),
                    i <= j < n,
                    forall|a: int, b: int|
                        0 <= a < b < j ==> !same_key(#[trigger] groups@[a], #[trigger] groups@[b]),
                    forall|a: int| 0 <= a < i ==> !same_key(#[trigger] groups@[a], groups@[j as int]),
                decreases j - i,
            {
                if groups[i].role == groups[j].role && groups[i].hash == groups[j].hash {
                    assert(same_key(groups@[i as int], groups@[j as int]));
                    return None;
                }
                i = i + 1;
            }
            j = j + 1;
        }
        Some(DesiredTopology { groups })
    }
}

} // verus!
