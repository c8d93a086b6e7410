use vstd::prelude::*;
use crate::inventory::{
    invalid_pods, lemma_invalid_bounded, lemma_invalid_contains, lemma_members_contains, members, pod_in_group, pod_valid, Pod,
};
use crate::reconcile::{bucket_action, cluster_actions, group_action, role_actions, PodAction};
use crate::role::SparkNodeType;
use crate::topology::{keys_unique, same_key, RoleGroup};

verus! {

/// The size of a bucket of `c` pods after the action that a pass takes on it.
pub open spec fn count_after_action(c: nat, a: Option<PodAction>) -> nat {
    match a {
        Some(PodAction::Delete { .. }) => (c - 1) as nat,
        Some(PodAction::Create { .. }) => c + 1,
        None => c,
    }
}

/// One step from `c` toward `d`.
pub open spec fn next_count(c: nat, d: nat) -> nat {
    if c > d {
        (c - 1) as nat
    } else if c < d {
        c + 1
    } else {
        c
    }
}

/// The size of a bucket of `c` pods after `k` passes toward `d`.
pub open spec fn count_after_passes(c: nat, d: nat, k: nat) -> nat
    decreases k,
{
    if k == 0 {
        c
    } else {
        next_count(count_after_passes(c, d, (k - 1) as nat), d)
    }
}

/// A pass moves every bucket one pod toward its desired count, and leaves a
/// bucket that holds its desired count as it is.
pub proof fn lemma_pass_moves_one_step(pods: Seq<Pod>, groups: Seq<RoleGroup>, g: int)
    requires
        0 <= g < groups.len(),
    ensures
        count_after_action(members(pods, groups[g]).len(), group_action(pods, groups, g))
            == next_count(members(pods, groups[g]).len(), groups[g].instances as nat),
{
}

/// Starting from any bucket size, as many passes as the distance to the
/// desired count bring the bucket to it, and it stays there on every further
/// pass.
pub proof fn lemma_convergence(c: nat, d: nat, k: nat)
    requires
        k >= (if c >= d { c - d } else { d - c }),
    ensures
        count_after_passes(c, d, k) == d,
    decreases k,
{
    if k > 0 {
        if c == d {
            lemma_convergence_stays(d, k);
        } else {
            let m = if c >= d { c - d } else { d - c };
            if k - 1 >= m {
                lemma_convergence(c, d, (k - 1) as nat);
            } else {
                assert(k == m);
                lemma_approach(c, d, (k - 1) as nat);
            }
        }
    }
}

proof fn lemma_convergence_stays(d: nat, k: nat)
    ensures
        count_after_passes(d, d, k) == d,
    decreases k,
{
    if k > 0 {
        lemma_convergence_stays(d, (k - 1) as nat);
    }
}

/// After `k` passes that stay short of `d`, the bucket is `k` pods nearer.
proof fn lemma_approach(c: nat, d: nat, k: nat)
    requires
        k < (if c >= d { c - d } else { d - c }),
    ensures
        c >= d ==> count_after_passes(c, d, k) == c - k,
        c < d ==> count_after_passes(c, d, k) == c + k,
    decreases k,
{
    if k > 0 {
        lemma_approach(c, d, (k - 1) as nat);
    }
}

proof fn lemma_role_actions_empty(pods: Seq<Pod>, groups: Seq<RoleGroup>, role: SparkNodeType, n: int)
    requires
        n <= groups.len(),
        forall|g: int|
            0 <= g < groups.len() ==> members(pods, #[trigger] groups[g]).len() == groups[g].instances,
    ensures
        role_actions(pods, groups, role, n).len() == 0,
    decreases n,
{
    if n > 0 {
        lemma_role_actions_empty(pods, groups, role, n - 1);
        assert(members(pods, groups[n - 1]).len() == groups[n - 1].instances);
    }
}

/// Once every listed pod belongs to a group and every group holds its desired
/// number of pods, a pass deletes nothing and creates nothing.
pub proof fn lemma_fixed_point(pods: Seq<Pod>, groups: Seq<RoleGroup>)
    requires
        pods.len() <= usize::MAX,
        forall|i: int| 0 <= i < pods.len() ==> pod_valid(#[trigger] pods[i], groups),
        forall|g: int|
            0 <= g < groups.len() ==> members(pods, #[trigger] groups[g]).len() == groups[g].instances,
    ensures
        invalid_pods(pods, groups).len() == 0,
        cluster_actions(pods, groups).len() == 0,
{
    if invalid_pods(pods, groups).len() > 0 {
        lemma_invalid_bounded(pods, groups);
        let i = invalid_pods(pods, groups)[0] as int;
        assert(invalid_pods(pods, groups).contains(i as usize));
        lemma_invalid_contains(pods, groups, i);
    }
    let n = groups.len() as int;
    lemma_role_actions_empty(pods, groups, SparkNodeType::Master, n);
    lemma_role_actions_empty(pods, groups, SparkNodeType::Worker, n);
    lemma_role_actions_empty(pods, groups, SparkNodeType::HistoryServer, n);
}

proof fn lemma_invalid_same(pods: Seq<Pod>, t1: Seq<RoleGroup>, t2: Seq<RoleGroup>)
    requires
        forall|p: Pod| pod_valid(p, t1) == pod_valid(p, t2),
    ensures
        invalid_pods(pods, t1) == invalid_pods(pods, t2),
    decreases pods.len(),
{
    if pods.len() > 0 {
        lemma_invalid_same(pods.drop_last(), t1, t2);
        assert(pod_valid(pods.last(), t1) == pod_valid(pods.last(), t2));
    }
}

/// Changing the desired count of one group changes neither which pods are
/// deleted as corrupt nor the action of any other group.
pub proof fn lemma_isolation(pods: Seq<Pod>, t1: Seq<RoleGroup>, t2: Seq<RoleGroup>, h1: int, h2: int)
    requires
        t1.len() == t2.len(),
        0 <= h1 < t1.len(),
        0 <= h2 < t1.len(),
        h1 != h2,
        t1[h1].role == t2[h1].role,
        t1[h1].hash@ == t2[h1].hash@,
        forall|g: int| 0 <= g < t1.len() && g != h1 ==> t1[g] == t2[g],
    ensures
        group_action(pods, t1, h2) == group_action(pods, t2, h2),
        invalid_pods(pods, t1) == invalid_pods(pods, t2),
{
    assert forall|p: Pod| pod_valid(p, t1) == pod_valid(p, t2) by {
        assert forall|j: int| 0 <= j < t1.len() implies pod_in_group(p, t1[j]) == pod_in_group(
            p,
            t2[j],
        ) by {
            if j != h1 {
                assert(t1[j] == t2[j]);
            }
        }
        if pod_valid(p, t1) {
            let j = choose|j: int| 0 <= j < t1.len() && #[trigger] pod_in_group(p, t1[j]);
            assert(pod_in_group(p, t2[j]));
        }
        if pod_valid(p, t2) {
            let j = choose|j: int| 0 <= j < t2.len() && #[trigger] pod_in_group(p, t2[j]);
            assert(pod_in_group(p, t1[j]));
        }
    }
    lemma_invalid_same(pods, t1, t2);
}

/// The number of pods of `pods` that belong to group `g`.
pub open spec fn count_in(pods: Seq<Pod>, g: RoleGroup) -> nat
    decreases pods.len(),
{
    if pods.len() == 0 {
        0
    } else {
        count_in(pods.drop_last(), g) + if pod_in_group(pods.last(), g) {
            1nat
        } else {
            0nat
        }
    }
}

proof fn lemma_count_is_members_len(pods: Seq<Pod>, g: RoleGroup)
    ensures
        members(pods, g).len() == count_in(pods, g),
    decreases pods.len(),
{
    if pods.len() > 0 {
        lemma_count_is_members_len(pods.drop_last(), g);
    }
}

proof fn lemma_count_concat(a: Seq<Pod>, b: Seq<Pod>, g: RoleGroup)
    ensures
        count_in(a + b, g) == count_in(a, g) + count_in(b, g),
    decreases b.len(),
{
    if b.len() == 0 {
        assert(a + b =~= a);
    } else {
        lemma_count_concat(a, b.drop_last(), g);
        assert((a + b).drop_last() =~= a + b.drop_last());
        assert((a + b).last() == b.last());
    }
}

/// The group holds more pods than it should, so a pass deletes one of them.
pub open spec fn over(pods: Seq<Pod>, g: RoleGroup) -> bool {
    count_in(pods, g) > g.instances
}

/// The pod at `i` is the first listed pod of group `g`.
pub open spec fn first_of(pods: Seq<Pod>, g: RoleGroup, i: int) -> bool {
    &&& pod_in_group(pods[i], g)
    &&& forall|j: int| 0 <= j < i ==> !pod_in_group(#[trigger] pods[j], g)
}

/// The pod at `i` survives a pass: it belongs to a group and is not the pod
/// that the pass deletes from a group that holds too many, its first one.
pub open spec fn kept_by_pass(pods: Seq<Pod>, groups: Seq<RoleGroup>, i: int) -> bool {
    &&& pod_valid(pods[i], groups)
    &&& forall|g: int|
        0 <= g < groups.len() && #[trigger] over(pods, groups[g]) ==> !first_of(pods, groups[g], i)
}

/// The pods among the first `n` that survive a pass, in order.
pub open spec fn kept_pods(pods: Seq<Pod>, groups: Seq<RoleGroup>, n: int) -> Seq<Pod>
    decreases n,
{
    if n <= 0 {
        seq![]
    } else {
        let rest = kept_pods(pods, groups, n - 1);
        if kept_by_pass(pods, groups, n - 1) {
            rest.push(pods[n - 1])
        } else {
            rest
        }
    }
}

/// `next` is what a pass over `pods` leaves once its actions are carried out:
/// the surviving pods, then `created`, which holds one pod of each group that
/// held too few and no pod that belongs to no group.
pub open spec fn pass_leaves(
    pods: Seq<Pod>,
    groups: Seq<RoleGroup>,
    created: Seq<Pod>,
    next: Seq<Pod>,
) -> bool {
    &&& next == kept_pods(pods, groups, pods.len() as int) + created
    &&& forall|i: int| 0 <= i < created.len() ==> pod_valid(#[trigger] created[i], groups)
    &&& forall|g: int|
        0 <= g < groups.len() ==> count_in(created, #[trigger] groups[g]) == if count_in(
            pods,
            groups[g],
        ) < groups[g].instances {
            1nat
        } else {
            0nat
        }
}

proof fn lemma_count_zero(pods: Seq<Pod>, g: RoleGroup, k: int)
    requires
        0 <= k <= pods.len(),
    ensures
        count_in(pods.take(k), g) == 0 <==> forall|j: int| 0 <= j < k ==> !pod_in_group(
            #[trigger] pods[j],
            g,
        ),
    decreases k,
{
    if k > 0 {
        lemma_count_zero(pods, g, k - 1);
        assert(pods.take(k).drop_last() =~= pods.take(k - 1));
        assert(pods.take(k).last() == pods[k - 1]);
    } else {
        assert(pods.take(0) =~= Seq::<Pod>::empty());
    }
}

proof fn lemma_kept_count(pods: Seq<Pod>, groups: Seq<RoleGroup>, g: int, n: int)
    requires
        keys_unique(groups),
        0 <= g < groups.len(),
        0 <= n <= pods.len(),
    ensures
        count_in(kept_pods(pods, groups, n), groups[g]) + (if over(pods, groups[g]) && count_in(
            pods.take(n),
            groups[g],
        ) > 0 {
            1nat
        } else {
            0nat
        }) == count_in(pods.take(n), groups[g]),
    decreases n,
{
    let gg = groups[g];
    if n == 0 {
        assert(pods.take(0) =~= Seq::<Pod>::empty());
    } else {
        lemma_kept_count(pods, groups, g, n - 1);
        assert(pods.take(n).drop_last() =~= pods.take(n - 1));
        assert(pods.take(n).last() == pods[n - 1]);
        let p = pods[n - 1];
        lemma_count_zero(pods, gg, n - 1);
        if kept_by_pass(pods, groups, n - 1) {
            let rest = kept_pods(pods, groups, n - 1);
            assert(rest.push(p).drop_last() =~= rest);
            assert(rest.push(p).last() == p);
        }
        if pod_in_group(p, gg) {
            assert(pod_valid(p, groups));
            if over(pods, gg) && count_in(pods.take(n - 1), gg) == 0 {
                assert(first_of(pods, gg, n - 1));
                assert(!kept_by_pass(pods, groups, n - 1));
            } else {
                assert forall|h: int|
                    0 <= h < groups.len() && #[trigger] over(pods, groups[h]) implies !first_of(
                    pods,
                    groups[h],
                    n - 1,
                ) by {
                    if first_of(pods, groups[h], n - 1) {
                        if h != g {
                            if h < g {
                                assert(!same_key(groups[h], groups[g]));
                            } else {
                                assert(!same_key(groups[g], groups[h]));
                            }
                        }
                    }
                }
                assert(kept_by_pass(pods, groups, n - 1));
            }
        } else {
            assert(!first_of(pods, gg, n - 1));
        }
    }
}

/// One pass moves every group exactly one pod toward its desired count, and
/// leaves only pods that belong to a group.
pub proof fn lemma_pass_step(
    pods: Seq<Pod>,
    groups: Seq<RoleGroup>,
    created: Seq<Pod>,
    next: Seq<Pod>,
    g: int,
)
    requires
        keys_unique(groups),
        0 <= g < groups.len(),
        pass_leaves(pods, groups, created, next),
    ensures
        count_in(next, groups[g]) == next_count(count_in(pods, groups[g]), groups[g].instances as nat),
        forall|i: int| 0 <= i < next.len() ==> pod_valid(#[trigger] next[i], groups),
{
    let n = pods.len() as int;
    lemma_kept_count(pods, groups, g, n);
    assert(pods.take(n) =~= pods);
    let kept = kept_pods(pods, groups, n);
    lemma_count_concat(kept, created, groups[g]);
    lemma_kept_valid(pods, groups, n);
    assert forall|i: int| 0 <= i < next.len() implies pod_valid(#[trigger] next[i], groups) by {
        if i < kept.len() {
            assert(next[i] == kept[i]);
        } else {
            assert(next[i] == created[i - kept.len()]);
        }
    }
}

proof fn lemma_kept_valid(pods: Seq<Pod>, groups: Seq<RoleGroup>, n: int)
    requires
        0 <= n <= pods.len(),
    ensures
        forall|i: int|
            0 <= i < kept_pods(pods, groups, n).len() ==> pod_valid(
                #[trigger] kept_pods(pods, groups, n)[i],
                groups,
            ),
    decreases n,
{
    if n > 0 {
        lemma_kept_valid(pods, groups, n - 1);
        let rest = kept_pods(pods, groups, n - 1);
        let all = kept_pods(pods, groups, n);
        assert forall|i: int| 0 <= i < all.len() implies pod_valid(#[trigger] all[i], groups) by {
            if i < rest.len() {
                assert(all[i] == rest[i]);
            }
        }
    }
}

/// Convergence: along any run of passes, each feeding the pods it leaves to
/// the next, every group holds its desired number of pods after as many passes
/// as its initial distance from it, and keeps holding it from then on.
pub proof fn lemma_passes_converge(
    runs: Seq<Seq<Pod>>,
    created: Seq<Seq<Pod>>,
    groups: Seq<RoleGroup>,
    g: int,
    t: int,
)
    requires
        keys_unique(groups),
        0 <= g < groups.len(),
        0 <= t < runs.len(),
        forall|s: int|
            0 <= s < runs.len() - 1 ==> pass_leaves(
                #[trigger] runs[s],
                groups,
                created[s],
                runs[s + 1],
            ),
        ({
            let c = count_in(runs[0], groups[g]);
            let d = groups[g].instances as nat;
            t >= (if c >= d { c - d } else { d - c })
        }),
    ensures
        count_in(runs[t], groups[g]) == groups[g].instances,
{
    let c = count_in(runs[0], groups[g]);
    let d = groups[g].instances as nat;
    lemma_passes_follow_counts(runs, created, groups, g, t);
    lemma_convergence(c, d, t as nat);
}

proof fn lemma_passes_follow_counts(
    runs: Seq<Seq<Pod>>,
    created: Seq<Seq<Pod>>,
    groups: Seq<RoleGroup>,
    g: int,
    t: int,
)
    requires
        keys_unique(groups),
        0 <= g < groups.len(),
        0 <= t < runs.len(),
        forall|s: int|
            0 <= s < runs.len() - 1 ==> pass_leaves(
                #[trigger] runs[s],
                groups,
                created[s],
                runs[s + 1],
            ),
    ensures
        count_in(runs[t], groups[g]) == count_after_passes(
            count_in(runs[0], groups[g]),
            groups[g].instances as nat,
            t as nat,
        ),
    decreases t,
{
    if t > 0 {
        lemma_passes_follow_counts(runs, created, groups, g, t - 1);
        assert(pass_leaves(runs[t - 1], groups, created[t - 1], runs[t]));
        lemma_pass_step(runs[t - 1], groups, created[t - 1], runs[t], g);
    }
}

/// The pods that `pass_leaves` removes and adds are those of the actions a
/// pass emits: a group that holds too many loses its first pod through a
/// deletion, and a group that holds too few gains one through a creation.
pub proof fn lemma_pass_leaves_follows_actions(pods: Seq<Pod>, groups: Seq<RoleGroup>, g: int)
    requires
        0 <= g < groups.len(),
        pods.len() <= usize::MAX,
    ensures
        over(pods, groups[g]) ==> first_of(pods, groups[g], members(pods, groups[g])[0] as int),
        over(pods, groups[g]) <==> group_action(pods, groups, g) == Some(
            PodAction::Delete { group: g as usize, pod: members(pods, groups[g])[0] },
        ),
        count_in(pods, groups[g]) < groups[g].instances <==> group_action(pods, groups, g) == Some(
            PodAction::Create { group: g as usize },
        ),
{
    lemma_count_is_members_len(pods, groups[g]);
    if over(pods, groups[g]) {
        lemma_first_member(pods, groups[g]);
    }
}

/// The first member of a group is its first listed pod.
proof fn lemma_first_member(pods: Seq<Pod>, g: RoleGroup)
    requires
        pods.len() <= usize::MAX,
        members(pods, g).len() > 0,
    ensures
        0 <= members(pods, g)[0] < pods.len(),
        first_of(pods, g, members(pods, g)[0] as int),
    decreases pods.len(),
{
    let rest = pods.drop_last();
    if members(rest, g).len() > 0 {
        lemma_first_member(rest, g);
        assert(members(pods, g)[0] == members(rest, g)[0]);
        let i = members(rest, g)[0] as int;
        assert forall|j: int| 0 <= j < i implies !pod_in_group(#[trigger] pods[j], g) by {
            assert(pods[j] == rest[j]);
        }
    } else {
        assert(members(pods, g)[0] == (pods.len() - 1) as usize);
        assert forall|j: int| 0 <= j < pods.len() - 1 implies !pod_in_group(#[trigger] pods[j], g) by {
            lemma_members_contains(rest, g, j);
            assert(pods[j] == rest[j]);
        }
    }
}

} // verus!
