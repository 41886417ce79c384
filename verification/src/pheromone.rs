//! Which edges receive pheromone after an iteration, and with what weight.
//!
//! The ants are ranked by the length of their tours, shortest first. The ant
//! of rank `r` deposits pheromone only when `r` (taken as a `u32`) is at most
//! the rank limit, with weight `(rank_limit - r) / rank_limit`, on every step
//! of its path between two different cities. This module works out that plan;
//! the amounts themselves, which are floating-point, are for the caller.

use vstd::prelude::*;

verus! {

/// A deposit of pheromone on the edge from `from` to `to` (and back), whose
/// weight is `weight / rank_limit`.
pub struct Deposit {
    pub from: usize,
    pub to: usize,
    pub weight: u32,
}

/// The deposits of one path with weight `weight`: one for each pair of
/// consecutive cities that differ, in path order.
pub open spec fn path_deposits(path: Seq<usize>, weight: u32) -> Seq<Deposit>
    decreases path.len(),
{
    if path.len() < 2 {
        seq![]
    } else {
        let from = path[path.len() - 2];
        let to = path.last();
        path_deposits(path.drop_last(), weight) + if from != to {
            seq![Deposit { from, to, weight }]
        } else {
            seq![]
        }
    }
}

/// The rank of position `r` as the ranking sees it: `r` taken as a `u32`.
pub open spec fn rank_u32(r: int) -> u32 {
    r as u32
}

/// The deposits of the ranked paths, rank 0 first.
pub open spec fn deposit_plan_spec(paths: Seq<Seq<usize>>, rank_limit: u32) -> Seq<Deposit>
    decreases paths.len(),
{
    if paths.len() == 0 {
        seq![]
    } else {
        let r = rank_u32(paths.len() - 1);
        deposit_plan_spec(paths.drop_last(), rank_limit) + if r <= rank_limit {
            path_deposits(paths.last(), (rank_limit - r) as u32)
        } else {
            seq![]
        }
    }
}

/// The paths, each taken by its view.
pub open spec fn paths_view(paths: Seq<Vec<usize>>) -> Seq<Seq<usize>> {
    paths.map_values(|p: Vec<usize>| p@)
}

/// The deposits of one path.
fn deposits_of_path(path: &Vec<usize>, weight: u32, plan: &mut Vec<Deposit>)
    ensures
        final(plan)@ == old(plan)@ + path_deposits(path@, weight),
{
    let n = path.len();
    if n < 2 {
        assert(old(plan)@ + seq![] =~= old(plan)@);
        return;
    }
    let mut i: usize = 1;
    assert(path@.take(1) =~= seq![path@[0]]);
    assert(old(plan)@ + seq![] =~= old(plan)@);
    while i < n
        invariant
            1 <= i <= n,
            n == path@.len(),
            plan@ == old(plan)@ + path_deposits(path@.take(i as int), weight),
        decreases n - i,
    {
        let from = path[i - 1];
        let to = path[i];
        let ghost before = plan@;
        assert(path@.take(i + 1).drop_last() == path@.take(i as int));
        if from != to {
            plan.push(Deposit { from, to, weight });
        }
        assert(plan@ =~= old(plan)@ + path_deposits(path@.take(i + 1), weight));
        i = i + 1;
    }
    assert(path@.take(n as int) == path@);
}

/// The deposits of the ranked paths `paths`, shortest tour first (see
/// `deposit_plan_spec`).
pub fn deposit_plan(paths: &Vec<Vec<usize>>, rank_limit: u32) -> (plan: Vec<Deposit>)
    ensures
        plan@ == deposit_plan_spec(paths_view(paths@), rank_limit),
{
    let mut plan: Vec<Deposit> = Vec::new();
    let ghost ps = paths_view(paths@);
    let mut rank: usize = 0;
    assert(ps.take(0) =~= seq![]);
    while rank < paths.len()
        invariant
            rank <= paths@.len(),
            ps == paths_view(paths@),
            plan@ == deposit_plan_spec(ps.take(rank as int), rank_limit),
        decreases paths@.len() - rank,
    {
        assert(ps.take(rank + 1).drop_last() == ps.take(rank as int));
        assert(ps.take(rank + 1).last() == paths@[rank as int]@);
        #[verifier::truncate]
        let r = rank as u32;
        assert(r == rank_u32(rank as int));
        if r <= rank_limit {
            deposits_of_path(&paths[rank], rank_limit - r, &mut plan);
        } else {
            assert(plan@ + seq![] =~= plan@);
        }
        rank = rank + 1;
    }
    assert(ps.take(paths@.len() as int) == ps);
    plan
}

/// Every deposit of a path joins two different cities that follow each other
/// on the path, and carries the path's weight.
proof fn lemma_path_deposits(path: Seq<usize>, weight: u32)
    ensures
        forall|k: int| 0 <= k < path_deposits(path, weight).len() ==> {
            let d = #[trigger] path_deposits(path, weight)[k];
            &&& d.from != d.to
            &&& d.weight == weight
            &&& exists|i: int| 0 <= i < path.len() - 1 && #[trigger] path[i] == d.from && path[i + 1] == d.to
        },
    decreases path.len(),
{
    if path.len() >= 2 {
        let p = path.drop_last();
        lemma_path_deposits(p, weight);
        let ds = path_deposits(path, weight);
        let prev = path_deposits(p, weight);
        assert forall|k: int| 0 <= k < ds.len() implies {
            let d = #[trigger] ds[k];
            &&& d.from != d.to
            &&& d.weight == weight
            &&& exists|i: int| 0 <= i < path.len() - 1 && #[trigger] path[i] == d.from && path[i + 1] == d.to
        } by {
            if k < prev.len() {
                assert(ds[k] == prev[k]);
                let d = prev[k];
                let i = choose|i: int| 0 <= i < p.len() - 1 && #[trigger] p[i] == d.from && p[i + 1] == d.to;
                assert(path[i] == d.from && path[i + 1] == d.to);
            } else {
                let i = path.len() - 2;
                assert(path[i] == ds[k].from && path[i + 1] == ds[k].to);
            }
        }
    }
}

/// Every deposit of the plan joins two different cities, and its weight is
/// at most the rank limit (so the amount is at most a full one).
pub proof fn lemma_deposits_are_proper(paths: Seq<Seq<usize>>, rank_limit: u32)
    ensures
        forall|k: int| 0 <= k < deposit_plan_spec(paths, rank_limit).len() ==> {
            let d = #[trigger] deposit_plan_spec(paths, rank_limit)[k];
            d.from != d.to && d.weight <= rank_limit
        },
    decreases paths.len(),
{
    if paths.len() > 0 {
        let prev = paths.drop_last();
        lemma_deposits_are_proper(prev, rank_limit);
        let r = rank_u32(paths.len() - 1);
        let plan = deposit_plan_spec(paths, rank_limit);
        let before = deposit_plan_spec(prev, rank_limit);
        if r <= rank_limit {
            lemma_path_deposits(paths.last(), (rank_limit - r) as u32);
        }
        assert forall|k: int| 0 <= k < plan.len() implies {
            let d = #[trigger] plan[k];
            d.from != d.to && d.weight <= rank_limit
        } by {
            if k < before.len() {
                assert(plan[k] == before[k]);
            } else {
                let added = path_deposits(paths.last(), (rank_limit - r) as u32);
                assert(plan[k] == added[k - before.len()]);
            }
        }
    }
}

/// Only the `rank_limit + 1` shortest tours deposit pheromone: the plan of
/// all ranked paths is the plan of those first ones. This holds while every
/// rank fits in a `u32`; beyond that a rank taken as a `u32` starts again
/// from 0.
pub proof fn lemma_only_top_ranks_deposit(paths: Seq<Seq<usize>>, rank_limit: u32)
    requires
        paths.len() <= u32::MAX as int + 1,
    ensures
        paths.len() > rank_limit + 1 ==> deposit_plan_spec(paths, rank_limit) == deposit_plan_spec(
            paths.take(rank_limit + 1),
            rank_limit,
        ),
    decreases paths.len(),
{
    if paths.len() > rank_limit + 1 {
        let prev = paths.drop_last();
        let r = paths.len() - 1;
        assert(rank_u32(r) == r);
        assert(deposit_plan_spec(paths, rank_limit) == deposit_plan_spec(prev, rank_limit) + seq![]);
        assert(deposit_plan_spec(prev, rank_limit) + seq![] =~= deposit_plan_spec(prev, rank_limit));
        assert(prev.take(rank_limit + 1) == paths.take(rank_limit + 1));
        lemma_only_top_ranks_deposit(prev, rank_limit);
        if prev.len() == rank_limit + 1 {
            assert(prev.take(rank_limit + 1) == prev);
        }
    }
}

/// Every step of a path between two different cities has its deposit.
proof fn lemma_path_deposits_cover_steps(path: Seq<usize>, weight: u32, i: int)
    requires
        0 <= i < path.len() - 1,
        path[i] != path[i + 1],
    ensures
        path_deposits(path, weight).contains(Deposit { from: path[i], to: path[i + 1], weight }),
    decreases path.len(),
{
    let d = Deposit { from: path[i], to: path[i + 1], weight };
    let p = path.drop_last();
    let prev = path_deposits(p, weight);
    if i == path.len() - 2 {
        let added = seq![d];
        assert(path_deposits(path, weight) == prev + added);
        assert((prev + added)[prev.len() as int] == d);
    } else {
        assert(p[i] == path[i] && p[i + 1] == path[i + 1]);
        lemma_path_deposits_cover_steps(p, weight, i);
        let k = choose|k: int| 0 <= k < prev.len() && prev[k] == d;
        let all = path_deposits(path, weight);
        assert(all[k] == d);
    }
}

/// Each ant ranked within the limit deposits on every step of its path
/// between two different cities, with weight `rank_limit - r` for the ant of
/// rank `r`.
pub proof fn lemma_top_ranks_deposit_every_step(
    paths: Seq<Seq<usize>>,
    rank_limit: u32,
    r: int,
    i: int,
)
    requires
        0 <= r < paths.len(),
        (r as u32) <= rank_limit,
        0 <= i < paths[r].len() - 1,
        paths[r][i] != paths[r][i + 1],
    ensures
        deposit_plan_spec(paths, rank_limit).contains(
            Deposit { from: paths[r][i], to: paths[r][i + 1], weight: (rank_limit - (r as u32)) as u32 },
        ),
    decreases paths.len(),
{
    let d = Deposit { from: paths[r][i], to: paths[r][i + 1], weight: (rank_limit - (r as u32)) as u32 };
    let prev = paths.drop_last();
    let before = deposit_plan_spec(prev, rank_limit);
    let all = deposit_plan_spec(paths, rank_limit);
    if r == paths.len() - 1 {
        assert(rank_u32(r) == (r as u32));
        let added = path_deposits(paths.last(), (rank_limit - rank_u32(r)) as u32);
        lemma_path_deposits_cover_steps(paths.last(), (rank_limit - rank_u32(r)) as u32, i);
        assert(all == before + added);
        let k = choose|k: int| 0 <= k < added.len() && added[k] == d;
        assert(all[before.len() + k] == d);
    } else {
        assert(prev[r] == paths[r]);
        lemma_top_ranks_deposit_every_step(prev, rank_limit, r, i);
        let k = choose|k: int| 0 <= k < before.len() && before[k] == d;
        assert(all[k] == d);
    }
}

/// Every deposit of the plan is a step between two different cities of the
/// path of some ant ranked within the limit, with that ant's weight
/// `rank_limit - r`.
pub proof fn lemma_every_deposit_is_a_ranked_step(paths: Seq<Seq<usize>>, rank_limit: u32)
    ensures
        forall|k: int| 0 <= k < deposit_plan_spec(paths, rank_limit).len() ==> {
            let d = #[trigger] deposit_plan_spec(paths, rank_limit)[k];
            exists|r: int, i: int|
                0 <= r < paths.len() && (r as u32) <= rank_limit && 0 <= i < paths[r].len() - 1
                    && #[trigger] paths[r][i] == d.from && paths[r][i + 1] == d.to && d.from != d.to
                    && d.weight == rank_limit - (r as u32)
        },
    decreases paths.len(),
{
    if paths.len() > 0 {
        let prev = paths.drop_last();
        lemma_every_deposit_is_a_ranked_step(prev, rank_limit);
        let r = paths.len() - 1;
        let w = (rank_limit - rank_u32(r)) as u32;
        let plan = deposit_plan_spec(paths, rank_limit);
        let before = deposit_plan_spec(prev, rank_limit);
        if rank_u32(r) <= rank_limit {
            lemma_path_deposits(paths.last(), w);
        }
        assert forall|k: int| 0 <= k < plan.len() implies {
            let d = #[trigger] plan[k];
            exists|r: int, i: int|
                0 <= r < paths.len() && (r as u32) <= rank_limit && 0 <= i < paths[r].len() - 1
                    && #[trigger] paths[r][i] == d.from && paths[r][i + 1] == d.to && d.from != d.to
                    && d.weight == rank_limit - (r as u32)
        } by {
            let d = plan[k];
            if k < before.len() {
                assert(plan[k] == before[k]);
                let (r0, i0) = choose|r0: int, i0: int|
                    0 <= r0 < prev.len() && (r0 as u32) <= rank_limit && 0 <= i0 < prev[r0].len()
                        - 1 && #[trigger] prev[r0][i0] == d.from && prev[r0][i0 + 1] == d.to
                        && d.from != d.to && d.weight == rank_limit - (r0 as u32);
                assert(paths[r0] == prev[r0]);
                assert(paths[r0][i0] == d.from);
            } else {
                let added = path_deposits(paths.last(), w);
                assert(plan == before + added);
                assert(plan[k] == added[k - before.len()]);
                let i0 = choose|i0: int|
                    0 <= i0 < paths.last().len() - 1 && #[trigger] paths.last()[i0] == d.from
                        && paths.last()[i0 + 1] == d.to;
                assert(paths[r] == paths.last());
                assert(paths[r][i0] == d.from);
            }
        }
    }
}

} // verus!
