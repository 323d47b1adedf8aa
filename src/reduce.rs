use vstd::prelude::*;
use crate::ray::{IntersectionResult, survives, tied, is_surviving, is_tied};

verus! {

/// The two tunable thresholds of the pointer arbitration.
#[derive(Clone, Copy, Debug, PartialEq, Eq, Structural)]
pub struct ArbitrationConfig {
    /// Results whose deepest point lies closer than this are dropped.
    pub distance_floor: i64,
    /// Hits whose distances differ by less than this are tied.
    pub tie_epsilon: i64,
}

/// The closest hits of a cycle: all ids tied with `best`.
#[derive(Debug)]
pub struct HitGroup {
    pub winners: Vec<u64>,
    pub best: IntersectionResult,
}

impl View for HitGroup {
    type V = (Seq<u64>, IntersectionResult);

    open spec fn view(&self) -> (Seq<u64>, IntersectionResult) {
        (self.winners@, self.best)
    }
}

/// The view of an optional group.
pub open spec fn group_view(g: Option<HitGroup>) -> Option<(Seq<u64>, IntersectionResult)> {
    match g {
        Some(h) => Some(h@),
        None => None,
    }
}

/// One step of the pointer reduction: fold the result `r` of candidate `id`
/// into the running group `acc`.
pub open spec fn combine(
    acc: Option<(Seq<u64>, IntersectionResult)>,
    id: u64,
    r: IntersectionResult,
    cfg: ArbitrationConfig,
) -> Option<(Seq<u64>, IntersectionResult)> {
    if !survives(r, cfg.distance_floor) {
        acc
    } else {
        match acc {
            None => Some((seq![id], r)),
            Some((w, b)) => {
                if tied(r.deepest_point_distance, b.deepest_point_distance, cfg.tie_epsilon) {
                    Some((w.push(id), b))
                } else if r.deepest_point_distance < b.deepest_point_distance {
                    Some((seq![id], r))
                } else {
                    acc
                }
            },
        }
    }
}

/// The pointer reduction of `s`, folded in the order of `s`.
pub open spec fn fold_hits(
    s: Seq<(u64, IntersectionResult)>,
    cfg: ArbitrationConfig,
) -> Option<(Seq<u64>, IntersectionResult)>
    decreases s.len(),
{
    if s.len() == 0 {
        None
    } else {
        combine(fold_hits(s.drop_last(), cfg), s.last().0, s.last().1, cfg)
    }
}

/// Some entry of `s` survives the distance floor.
pub open spec fn any_survivor(s: Seq<(u64, IntersectionResult)>, floor: i64) -> bool {
    exists|i: int| 0 <= i < s.len() && survives(#[trigger] s[i].1, floor)
}

/// `b` lies less than the tie epsilon beyond every surviving entry of `s`.
pub open spec fn best_within_tie(
    s: Seq<(u64, IntersectionResult)>,
    cfg: ArbitrationConfig,
    b: IntersectionResult,
) -> bool {
    forall|i: int|
        0 <= i < s.len() && survives(#[trigger] s[i].1, cfg.distance_floor)
            ==> b.deepest_point_distance - cfg.tie_epsilon < s[i].1.deepest_point_distance
}

/// Each id in `w` belongs to a surviving entry of `s` tied with `b`.
pub open spec fn winners_tied(
    s: Seq<(u64, IntersectionResult)>,
    cfg: ArbitrationConfig,
    w: Seq<u64>,
    b: IntersectionResult,
) -> bool {
    forall|k: int|
        0 <= k < w.len() ==> exists|i: int|
            0 <= i < s.len() && s[i].0 == #[trigger] w[k] && survives(s[i].1, cfg.distance_floor)
                && tied(s[i].1.deepest_point_distance, b.deepest_point_distance, cfg.tie_epsilon)
}

/// Folds the result `r` of candidate `id` into the running group `acc`.
pub fn fold_hit(acc: Option<HitGroup>, id: u64, r: &IntersectionResult, cfg: &ArbitrationConfig) -> (g:
    Option<HitGroup>)
    ensures
        group_view(g) == combine(group_view(acc), id, *r, *cfg),
{
    if !is_surviving(r, cfg.distance_floor) {
        return acc;
    }
    match acc {
        None => Some(HitGroup { winners: vec![id], best: *r }),
        Some(mut h) => {
            if is_tied(r.deepest_point_distance, h.best.deepest_point_distance, cfg.tie_epsilon) {
                h.winners.push(id);
                Some(h)
            } else if r.deepest_point_distance < h.best.deepest_point_distance {
                Some(HitGroup { winners: vec![id], best: *r })
            } else {
                Some(h)
            }
        },
    }
}

/// Every surviving result is a hit at least as far as the distance floor;
/// the folded group is empty exactly when nothing survived, and otherwise
/// its best result is one of the survivors, within the tie epsilon of every
/// survivor's distance, and each winner is a surviving id tied with it.
pub proof fn lemma_fold_hits_facts(s: Seq<(u64, IntersectionResult)>, cfg: ArbitrationConfig)
    ensures
        fold_hits(s, cfg) is None <==> !any_survivor(s, cfg.distance_floor),
        fold_hits(s, cfg) matches Some((w, b)) ==> {
            &&& w.len() > 0
            &&& s.contains((w[0], b))
            &&& survives(b, cfg.distance_floor)
            &&& 0 < cfg.tie_epsilon ==> best_within_tie(s, cfg, b)
            &&& 0 < cfg.tie_epsilon ==> winners_tied(s, cfg, w, b)
        },
    decreases s.len(),
{
    if s.len() > 0 {
        let p = s.drop_last();
        let (id, r) = s.last();
        lemma_fold_hits_facts(p, cfg);
        assert forall|i: int| 0 <= i < p.len() implies #[trigger] p[i] == s[i] by {}
        assert(s[s.len() - 1] == (id, r));
        if any_survivor(p, cfg.distance_floor) {
            let i = choose|i: int| 0 <= i < p.len() && survives(#[trigger] p[i].1, cfg.distance_floor);
            assert(survives(s[i].1, cfg.distance_floor));
        }
        if any_survivor(s, cfg.distance_floor) && !survives(r, cfg.distance_floor) {
            let i = choose|i: int| 0 <= i < s.len() && survives(#[trigger] s[i].1, cfg.distance_floor);
            assert(i < p.len());
            assert(survives(p[i].1, cfg.distance_floor));
        }
        if survives(r, cfg.distance_floor) {
            assert(survives(s[s.len() - 1].1, cfg.distance_floor));
        }
        match fold_hits(s, cfg) {
            None => {},
            Some((w, b)) => {
                match fold_hits(p, cfg) {
                    None => {
                        assert(w =~= seq![id]);
                        assert(s.contains((w[0], b)));
                        if 0 < cfg.tie_epsilon {
                            assert forall|k: int| 0 <= k < w.len() implies exists|i: int|
                                0 <= i < s.len() && s[i].0 == #[trigger] w[k] && survives(s[i].1, cfg.distance_floor)
                                    && tied(s[i].1.deepest_point_distance, b.deepest_point_distance, cfg.tie_epsilon) by {
                                let j = s.len() - 1;
                                assert(s[j].0 == w[k] && s[j].1 == b);
                            }
                        }
                    },
                    Some((pw, pb)) => {
                        let pi = choose|i: int| 0 <= i < p.len() && p[i] == (pw[0], pb);
                        assert(s[pi] == (pw[0], pb));
                        if survives(r, cfg.distance_floor) && tied(r.deepest_point_distance, pb.deepest_point_distance, cfg.tie_epsilon) {
                            assert(w == pw.push(id));
                            assert(w[0] == pw[0]);
                            if 0 < cfg.tie_epsilon {
                                assert forall|k: int| 0 <= k < w.len() implies exists|i: int|
                                    0 <= i < s.len() && s[i].0 == #[trigger] w[k] && survives(s[i].1, cfg.distance_floor)
                                        && tied(s[i].1.deepest_point_distance, b.deepest_point_distance, cfg.tie_epsilon) by {
                                    if k < pw.len() {
                                        assert(w[k] == pw[k]);
                                        let j = choose|j: int| 0 <= j < p.len() && p[j].0 == #[trigger] pw[k] && survives(p[j].1, cfg.distance_floor)
                                            && tied(p[j].1.deepest_point_distance, pb.deepest_point_distance, cfg.tie_epsilon);
                                        assert(s[j] == p[j]);
                                    } else {
                                        assert(s[s.len() - 1].0 == w[k]);
                                    }
                                }
                            }
                        } else if survives(r, cfg.distance_floor) && r.deepest_point_distance < pb.deepest_point_distance {
                            assert(w =~= seq![id]);
                            if 0 < cfg.tie_epsilon {
                                assert forall|k: int| 0 <= k < w.len() implies exists|i: int|
                                    0 <= i < s.len() && s[i].0 == #[trigger] w[k] && survives(s[i].1, cfg.distance_floor)
                                        && tied(s[i].1.deepest_point_distance, b.deepest_point_distance, cfg.tie_epsilon) by {
                                    assert(s[s.len() - 1].0 == w[k]);
                                }
                            }
                        } else {
                            if 0 < cfg.tie_epsilon {
                                assert forall|k: int| 0 <= k < w.len() implies exists|i: int|
                                    0 <= i < s.len() && s[i].0 == #[trigger] w[k] && survives(s[i].1, cfg.distance_floor)
                                        && tied(s[i].1.deepest_point_distance, b.deepest_point_distance, cfg.tie_epsilon) by {
                                    let j = choose|j: int| 0 <= j < p.len() && p[j].0 == #[trigger] pw[k] && survives(p[j].1, cfg.distance_floor)
                                        && tied(p[j].1.deepest_point_distance, pb.deepest_point_distance, cfg.tie_epsilon);
                                    assert(s[j] == p[j]);
                                }
                            }
                        }
                    },
                }
                if 0 < cfg.tie_epsilon {
                    assert forall|i: int|
                        0 <= i < s.len() && survives(#[trigger] s[i].1, cfg.distance_floor) implies
                            b.deepest_point_distance - cfg.tie_epsilon < s[i].1.deepest_point_distance by {
                        if i < p.len() {
                            assert(survives(p[i].1, cfg.distance_floor));
                        }
                    }
                }
            },
        }
    }
}

/// Reduces the results of one pointer cycle, in the order given, to the
/// closest hits: `None` when no result survives the distance floor.
pub fn reduce_hits(results: &Vec<(u64, IntersectionResult)>, cfg: &ArbitrationConfig) -> (g: Option<
    HitGroup,
>)
    ensures
        group_view(g) == fold_hits(results@, *cfg),
        g is None <==> !any_survivor(results@, cfg.distance_floor),
        g matches Some(h) ==> {
            &&& h.winners@.len() > 0
            &&& results@.contains((h.winners@[0], h.best))
            &&& survives(h.best, cfg.distance_floor)
            &&& 0 < cfg.tie_epsilon ==> best_within_tie(results@, *cfg, h.best)
            &&& 0 < cfg.tie_epsilon ==> winners_tied(results@, *cfg, h.winners@, h.best)
        },
{
    let mut acc: Option<HitGroup> = None;
    let mut i: usize = 0;
    while i < results.len()
        invariant
            i <= results.len(),
            group_view(acc) == fold_hits(results@.take(i as int), *cfg),
        decreases results.len() - i,
    {
        let (id, r) = &results[i];
        acc = fold_hit(acc, *id, r, cfg);
        assert(results@.take(i as int + 1).drop_last() =~= results@.take(i as int));
        i = i + 1;
    }
    assert(results@.take(i as int) =~= results@);
    proof {
        lemma_fold_hits_facts(results@, *cfg);
    }
    acc
}

/// One step of the single-winner reduction: the running `(id, distance)`
/// is replaced only by a surviving result strictly closer than it.
pub open spec fn hover_combine(acc: Option<(u64, i64)>, id: u64, r: IntersectionResult, floor: i64) -> Option<
    (u64, i64),
> {
    if !survives(r, floor) {
        acc
    } else {
        match acc {
            None => Some((id, r.deepest_point_distance)),
            Some((_, d)) => {
                if r.deepest_point_distance < d {
                    Some((id, r.deepest_point_distance))
                } else {
                    acc
                }
            },
        }
    }
}

/// The single-winner reduction of `s`, folded in the order of `s`.
pub open spec fn fold_hover(s: Seq<(u64, IntersectionResult)>, floor: i64) -> Option<(u64, i64)>
    decreases s.len(),
{
    if s.len() == 0 {
        None
    } else {
        hover_combine(fold_hover(s.drop_last(), floor), s.last().0, s.last().1, floor)
    }
}

/// Entry `i` of `s` is the first among the closest surviving entries.
pub open spec fn first_closest(s: Seq<(u64, IntersectionResult)>, floor: i64, i: int) -> bool {
    &&& 0 <= i < s.len()
    &&& survives(s[i].1, floor)
    &&& forall|j: int|
        0 <= j < s.len() && survives(#[trigger] s[j].1, floor) ==> s[i].1.deepest_point_distance
            <= s[j].1.deepest_point_distance
    &&& forall|j: int|
        0 <= j < i && survives(#[trigger] s[j].1, floor) ==> s[i].1.deepest_point_distance
            < s[j].1.deepest_point_distance
}

/// The single-winner reduction picks the first of the closest survivors,
/// and nothing when no entry survives.
pub proof fn lemma_fold_hover_first_closest(s: Seq<(u64, IntersectionResult)>, floor: i64)
    ensures
        fold_hover(s, floor) is None <==> !any_survivor(s, floor),
        fold_hover(s, floor) matches Some((id, d)) ==> exists|i: int|
            first_closest(s, floor, i) && #[trigger] s[i].0 == id && s[i].1.deepest_point_distance == d,
    decreases s.len(),
{
    if s.len() > 0 {
        let p = s.drop_last();
        let n = s.len() - 1;
        lemma_fold_hover_first_closest(p, floor);
        assert forall|i: int| 0 <= i < p.len() implies #[trigger] p[i] == s[i] by {}
        if any_survivor(p, floor) {
            let i = choose|i: int| 0 <= i < p.len() && survives(#[trigger] p[i].1, floor);
            assert(survives(s[i].1, floor));
        }
        if any_survivor(s, floor) && !survives(s[n].1, floor) {
            let i = choose|i: int| 0 <= i < s.len() && survives(#[trigger] s[i].1, floor);
            assert(survives(p[i].1, floor));
        }
        match fold_hover(s, floor) {
            None => {},
            Some((id, d)) => {
                match fold_hover(p, floor) {
                    None => {
                        assert(first_closest(s, floor, n) && s[n].0 == id) by {
                            assert forall|j: int| 0 <= j < s.len() && survives(#[trigger] s[j].1, floor)
                                implies j == n by {
                                if j < n {
                                    assert(survives(p[j].1, floor));
                                }
                            }
                        }
                    },
                    Some((pid, pd)) => {
                        let pi = choose|i: int|
                            first_closest(p, floor, i) && #[trigger] p[i].0 == pid && p[i].1.deepest_point_distance == pd;
                        if survives(s[n].1, floor) && s[n].1.deepest_point_distance < pd {
                            assert(first_closest(s, floor, n) && s[n].0 == id) by {
                                assert forall|j: int| 0 <= j < s.len() && survives(#[trigger] s[j].1, floor)
                                    implies s[n].1.deepest_point_distance <= s[j].1.deepest_point_distance by {
                                    if j < n {
                                        assert(survives(p[j].1, floor));
                                    }
                                }
                                assert forall|j: int| 0 <= j < n && survives(#[trigger] s[j].1, floor)
                                    implies s[n].1.deepest_point_distance < s[j].1.deepest_point_distance by {
                                    assert(survives(p[j].1, floor));
                                }
                            }
                        } else {
                            assert(first_closest(s, floor, pi) && s[pi].0 == id) by {
                                assert forall|j: int| 0 <= j < s.len() && survives(#[trigger] s[j].1, floor)
                                    implies s[pi].1.deepest_point_distance <= s[j].1.deepest_point_distance by {
                                    if j < n {
                                        assert(survives(p[j].1, floor));
                                    }
                                }
                                assert forall|j: int| 0 <= j < pi && survives(#[trigger] s[j].1, floor)
                                    implies s[pi].1.deepest_point_distance < s[j].1.deepest_point_distance by {
                                    assert(survives(p[j].1, floor));
                                }
                            }
                        }
                    },
                }
            },
        }
    }
}

/// Picks the single hover target of one cycle: the first of the closest
/// results that survive `floor`, or `None` when none does.
pub fn spatial_beam_target(results: &Vec<(u64, IntersectionResult)>, floor: i64) -> (t: Option<u64>)
    ensures
        t == (match fold_hover(results@, floor) {
            Some((id, _)) => Some(id),
            None => None,
        }),
        t is None <==> !any_survivor(results@, floor),
        t matches Some(id) ==> exists|i: int| first_closest(results@, floor, i) && #[trigger] results@[i].0 == id,
{
    let mut best: Option<(u64, i64)> = None;
    let mut i: usize = 0;
    while i < results.len()
        invariant
            i <= results.len(),
            best == fold_hover(results@.take(i as int), floor),
        decreases results.len() - i,
    {
        let (id, r) = &results[i];
        if is_surviving(r, floor) {
            match best {
                None => {
                    best = Some((*id, r.deepest_point_distance));
                },
                Some((_, d)) => {
                    if r.deepest_point_distance < d {
                        best = Some((*id, r.deepest_point_distance));
                    }
                },
            }
        }
        assert(results@.take(i as int + 1).drop_last() =~= results@.take(i as int));
        i = i + 1;
    }
    assert(results@.take(i as int) =~= results@);
    proof {
        lemma_fold_hover_first_closest(results@, floor);
    }
    match best {
        Some((id, _)) => Some(id),
        None => None,
    }
}

/// A cycle in which no query reported a hit has no closest hits.
pub proof fn lemma_no_hit_default(s: Seq<(u64, IntersectionResult)>, cfg: ArbitrationConfig)
    requires
        forall|i: int| 0 <= i < s.len() ==> !(#[trigger] s[i].1).hit,
    ensures
        fold_hits(s, cfg) is None,
{
    lemma_fold_hits_facts(s, cfg);
}

/// A hit whose deepest point lies closer than the distance floor leaves the
/// running group as it was.
pub proof fn lemma_below_floor_ignored(
    acc: Option<(Seq<u64>, IntersectionResult)>,
    id: u64,
    r: IntersectionResult,
    cfg: ArbitrationConfig,
)
    requires
        r.deepest_point_distance < cfg.distance_floor,
    ensures
        combine(acc, id, r, cfg) == acc,
{
}

} // verus!
