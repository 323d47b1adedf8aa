//! When the pointer reduction does not depend on the order in which the
//! results of a cycle arrive.
//!
//! The reduction compares each arriving result with the running best only.
//! Results that chain within the tie epsilon of each other, without all being
//! within it of the closest one, are therefore grouped differently in
//! different orders, and among tied results the one that arrived first stays
//! `best`. The laws below name inputs on which neither can happen: the
//! winners do not depend on the order when the input is `separated`, and
//! neither does `best` when the tie cluster agrees on one result.
use vstd::prelude::*;
use crate::ray::{IntersectionResult, survives};
use crate::reduce::{
    ArbitrationConfig, fold_hits, any_survivor, lemma_fold_hits_facts, lemma_fold_hover_first_closest,
    first_closest,
};

verus! {

/// `x` is a surviving entry of `s` within the tie epsilon of every surviving
/// entry, that is, of the closest one.
pub open spec fn in_tie_cluster(
    s: Seq<(u64, IntersectionResult)>,
    cfg: ArbitrationConfig,
    x: (u64, IntersectionResult),
) -> bool {
    &&& s.contains(x)
    &&& survives(x.1, cfg.distance_floor)
    &&& forall|y: (u64, IntersectionResult)|
        #[trigger] s.contains(y) && survives(y.1, cfg.distance_floor) ==> x.1.deepest_point_distance
            < y.1.deepest_point_distance + cfg.tie_epsilon
}

/// The ids of the entries of `s` in its tie cluster.
pub open spec fn cluster_ids(s: Seq<(u64, IntersectionResult)>, cfg: ArbitrationConfig) -> Set<u64> {
    Set::new(|id: u64| exists|r: IntersectionResult| #[trigger] in_tie_cluster(s, cfg, (id, r)))
}

/// Every surviving entry outside the tie cluster lies at least the tie
/// epsilon beyond every entry inside it.
pub open spec fn separated(s: Seq<(u64, IntersectionResult)>, cfg: ArbitrationConfig) -> bool {
    forall|x: (u64, IntersectionResult), y: (u64, IntersectionResult)|
        #[trigger] in_tie_cluster(s, cfg, x) && #[trigger] s.contains(y) && survives(
            y.1,
            cfg.distance_floor,
        ) && !in_tie_cluster(s, cfg, y) ==> y.1.deepest_point_distance >= x.1.deepest_point_distance
            + cfg.tie_epsilon
}

/// All entries of the tie cluster of `s` carry the same result.
pub open spec fn cluster_agrees(s: Seq<(u64, IntersectionResult)>, cfg: ArbitrationConfig) -> bool {
    forall|x: (u64, IntersectionResult), y: (u64, IntersectionResult)|
        #[trigger] in_tie_cluster(s, cfg, x) && #[trigger] in_tie_cluster(s, cfg, y) ==> x.1 == y.1
}

spec fn prefix_cluster_ids(s: Seq<(u64, IntersectionResult)>, cfg: ArbitrationConfig, k: int) -> Set<u64> {
    Set::new(|id: u64| exists|i: int| 0 <= i < k && #[trigger] s[i].0 == id && in_tie_cluster(s, cfg, s[i]))
}

proof fn lemma_fold_prefix(s: Seq<(u64, IntersectionResult)>, cfg: ArbitrationConfig, k: int)
    requires
        0 < cfg.tie_epsilon,
        separated(s, cfg),
        0 <= k <= s.len(),
    ensures
        (exists|i: int| 0 <= i < k && in_tie_cluster(s, cfg, #[trigger] s[i])) ==> (fold_hits(s.take(k), cfg) matches Some((w, b))
            && in_tie_cluster(s, cfg, (w[0], b)) && w.to_set() == prefix_cluster_ids(s, cfg, k)),
    decreases k,
{
    if k > 0 && exists|i: int| 0 <= i < k && in_tie_cluster(s, cfg, #[trigger] s[i]) {
        let pre = s.take(k);
        let pp = s.take(k - 1);
        assert(pre.drop_last() =~= pp);
        let x = s[k - 1];
        assert(pre.last() == x);
        assert(s.contains(x));
        lemma_fold_prefix(s, cfg, k - 1);
        if exists|i: int| 0 <= i < k - 1 && in_tie_cluster(s, cfg, #[trigger] s[i]) {
            let (w, b) = fold_hits(pp, cfg)->Some_0;
            lemma_fold_hits_facts(pp, cfg);
            assert(s.contains((w[0], b)));
            if !survives(x.1, cfg.distance_floor) {
                assert(prefix_cluster_ids(s, cfg, k) =~= prefix_cluster_ids(s, cfg, k - 1));
            } else if in_tie_cluster(s, cfg, x) {
                let w2 = w.push(x.0);
                assert(fold_hits(pre, cfg) == Some((w2, b)));
                assert(w2[0] == w[0]);
                assert(w2.to_set() =~= w.to_set().insert(x.0)) by {
                    assert forall|id: u64| w2.to_set().contains(id) <==> w.to_set().insert(x.0).contains(id) by {
                        if w2.contains(id) {
                            let j = choose|j: int| 0 <= j < w2.len() && w2[j] == id;
                            if j < w.len() {
                                assert(w.contains(id));
                            }
                        }
                        if w.contains(id) {
                            let j = choose|j: int| 0 <= j < w.len() && w[j] == id;
                            assert(w2[j] == id);
                        }
                        if id == x.0 {
                            assert(w2[w.len() as int] == id);
                        }
                    }
                }
                assert(prefix_cluster_ids(s, cfg, k) =~= prefix_cluster_ids(s, cfg, k - 1).insert(x.0));
            } else {
                assert(prefix_cluster_ids(s, cfg, k) =~= prefix_cluster_ids(s, cfg, k - 1));
            }
        } else {
            assert(in_tie_cluster(s, cfg, x));
            assert(prefix_cluster_ids(s, cfg, k) =~= set![x.0]);
            match fold_hits(pp, cfg) {
                None => {
                    assert(seq![x.0].to_set() =~= set![x.0]) by {
                                assert(seq![x.0][0] == x.0);
                    }
                },
                Some((w, b)) => {
                    lemma_fold_hits_facts(pp, cfg);
                    let j = choose|j: int| 0 <= j < pp.len() && pp[j] == (w[0], b);
                    assert(s[j] == (w[0], b));
                    assert(s.contains((w[0], b)));
                    assert(seq![x.0].to_set() =~= set![x.0]) by {
                                assert(seq![x.0][0] == x.0);
                    }
                },
            }
        }
    }
}

/// On a separated input the reduction groups exactly the tie cluster, and
/// its best result is one of the cluster's.
pub proof fn lemma_fold_groups_cluster(s: Seq<(u64, IntersectionResult)>, cfg: ArbitrationConfig)
    requires
        0 < cfg.tie_epsilon,
        separated(s, cfg),
    ensures
        fold_hits(s, cfg) matches Some((w, b)) ==> in_tie_cluster(s, cfg, (w[0], b)) && w.to_set()
            == cluster_ids(s, cfg),
{
    lemma_fold_hits_facts(s, cfg);
    if let Some((w, b)) = fold_hits(s, cfg) {
        let e = (w[0], b);
        assert forall|y: (u64, IntersectionResult)|
            #[trigger] s.contains(y) && survives(y.1, cfg.distance_floor) implies b.deepest_point_distance
                < y.1.deepest_point_distance + cfg.tie_epsilon by {
            let i = choose|i: int| 0 <= i < s.len() && s[i] == y;
            assert(survives(s[i].1, cfg.distance_floor));
        }
        assert(in_tie_cluster(s, cfg, e));
        let i = choose|i: int| 0 <= i < s.len() && s[i] == e;
        lemma_fold_prefix(s, cfg, s.len() as int);
        assert(s.take(s.len() as int) =~= s);
        assert(prefix_cluster_ids(s, cfg, s.len() as int) =~= cluster_ids(s, cfg)) by {
            assert forall|id: u64| #[trigger] cluster_ids(s, cfg).contains(id) implies prefix_cluster_ids(
                s,
                cfg,
                s.len() as int,
            ).contains(id) by {
                let r = choose|r: IntersectionResult| #[trigger] in_tie_cluster(s, cfg, (id, r));
                let j = choose|j: int| 0 <= j < s.len() && s[j] == (id, r);
                assert(s[j].0 == id);
            }
            assert forall|id: u64| #[trigger] prefix_cluster_ids(s, cfg, s.len() as int).contains(id) implies cluster_ids(
                s,
                cfg,
            ).contains(id) by {
                let j = choose|j: int| 0 <= j < s.len() && #[trigger] s[j].0 == id && in_tie_cluster(s, cfg, s[j]);
                assert(in_tie_cluster(s, cfg, (id, s[j].1)));
            }
        }
    }
}

proof fn lemma_same_contents(s1: Seq<(u64, IntersectionResult)>, s2: Seq<(u64, IntersectionResult)>, cfg: ArbitrationConfig)
    requires
        s1.to_multiset() == s2.to_multiset(),
    ensures
        forall|x: (u64, IntersectionResult)|
            #![trigger s1.contains(x)]
            #![trigger s2.contains(x)]
            s1.contains(x) <==> s2.contains(x),
        forall|x: (u64, IntersectionResult)| #[trigger] in_tie_cluster(s1, cfg, x) <==> in_tie_cluster(s2, cfg, x),
        cluster_ids(s1, cfg) == cluster_ids(s2, cfg),
        any_survivor(s1, cfg.distance_floor) <==> any_survivor(s2, cfg.distance_floor),
        separated(s1, cfg) <==> separated(s2, cfg),
        cluster_agrees(s1, cfg) <==> cluster_agrees(s2, cfg),
{
    assert forall|x: (u64, IntersectionResult)|
        #![trigger s1.contains(x)]
        #![trigger s2.contains(x)]
        s1.contains(x) <==> s2.contains(x) by {
        vstd::seq_lib::to_multiset_contains(s1, x);
        vstd::seq_lib::to_multiset_contains(s2, x);
    }
    assert forall|x: (u64, IntersectionResult)| #[trigger] in_tie_cluster(s1, cfg, x) <==> in_tie_cluster(s2, cfg, x) by {}
    assert(cluster_ids(s1, cfg) =~= cluster_ids(s2, cfg)) by {
        assert forall|id: u64| cluster_ids(s1, cfg).contains(id) <==> cluster_ids(s2, cfg).contains(id) by {
            if cluster_ids(s1, cfg).contains(id) {
                let r = choose|r: IntersectionResult| #[trigger] in_tie_cluster(s1, cfg, (id, r));
                assert(in_tie_cluster(s2, cfg, (id, r)));
            }
            if cluster_ids(s2, cfg).contains(id) {
                let r = choose|r: IntersectionResult| #[trigger] in_tie_cluster(s2, cfg, (id, r));
                assert(in_tie_cluster(s1, cfg, (id, r)));
            }
        }
    }
    if separated(s1, cfg) {
        assert forall|x: (u64, IntersectionResult), y: (u64, IntersectionResult)|
            #[trigger] in_tie_cluster(s2, cfg, x) && #[trigger] s2.contains(y) && survives(y.1, cfg.distance_floor)
                && !in_tie_cluster(s2, cfg, y) implies y.1.deepest_point_distance >= x.1.deepest_point_distance
                + cfg.tie_epsilon by {
            assert(in_tie_cluster(s1, cfg, x) && s1.contains(y) && !in_tie_cluster(s1, cfg, y));
        }
    }
    if cluster_agrees(s1, cfg) {
        assert forall|x: (u64, IntersectionResult), y: (u64, IntersectionResult)|
            #[trigger] in_tie_cluster(s2, cfg, x) && #[trigger] in_tie_cluster(s2, cfg, y) implies x.1 == y.1 by {
            assert(in_tie_cluster(s1, cfg, x) && in_tie_cluster(s1, cfg, y));
        }
    }
    if cluster_agrees(s2, cfg) {
        assert forall|x: (u64, IntersectionResult), y: (u64, IntersectionResult)|
            #[trigger] in_tie_cluster(s1, cfg, x) && #[trigger] in_tie_cluster(s1, cfg, y) implies x.1 == y.1 by {
            assert(in_tie_cluster(s2, cfg, x) && in_tie_cluster(s2, cfg, y));
        }
    }
    if separated(s2, cfg) {
        assert forall|x: (u64, IntersectionResult), y: (u64, IntersectionResult)|
            #[trigger] in_tie_cluster(s1, cfg, x) && #[trigger] s1.contains(y) && survives(y.1, cfg.distance_floor)
                && !in_tie_cluster(s1, cfg, y) implies y.1.deepest_point_distance >= x.1.deepest_point_distance
                + cfg.tie_epsilon by {
            assert(in_tie_cluster(s2, cfg, x) && s2.contains(y) && !in_tie_cluster(s2, cfg, y));
        }
    }
    if any_survivor(s1, cfg.distance_floor) {
        let i = choose|i: int| 0 <= i < s1.len() && survives(#[trigger] s1[i].1, cfg.distance_floor);
        assert(s1.contains(s1[i]));
        let j = choose|j: int| 0 <= j < s2.len() && s2[j] == s1[i];
        assert(survives(s2[j].1, cfg.distance_floor));
    }
    if any_survivor(s2, cfg.distance_floor) {
        let i = choose|i: int| 0 <= i < s2.len() && survives(#[trigger] s2[i].1, cfg.distance_floor);
        assert(s2.contains(s2[i]));
        let j = choose|j: int| 0 <= j < s1.len() && s1[j] == s2[i];
        assert(survives(s1[j].1, cfg.distance_floor));
    }
}

/// Folding the same results in two orders finds a hit in both or in neither,
/// and on a separated input the two groups hold the same set of winners.
pub proof fn lemma_fold_winners_order_independent(
    s1: Seq<(u64, IntersectionResult)>,
    s2: Seq<(u64, IntersectionResult)>,
    cfg: ArbitrationConfig,
)
    requires
        s1.to_multiset() == s2.to_multiset(),
        0 < cfg.tie_epsilon,
        separated(s1, cfg),
    ensures
        fold_hits(s1, cfg) is None <==> fold_hits(s2, cfg) is None,
        fold_hits(s1, cfg) matches Some((w1, _)) ==> (fold_hits(s2, cfg) matches Some((w2, _))
            && w1.to_set() == w2.to_set()),
{
    lemma_same_contents(s1, s2, cfg);
    lemma_fold_hits_facts(s1, cfg);
    lemma_fold_hits_facts(s2, cfg);
    lemma_fold_groups_cluster(s1, cfg);
    lemma_fold_groups_cluster(s2, cfg);
}

/// A cluster whose entries all carry one result leaves no surviving entry
/// between it and the tie epsilon beyond it.
proof fn lemma_agreeing_cluster_is_separated(s: Seq<(u64, IntersectionResult)>, cfg: ArbitrationConfig)
    requires
        0 < cfg.tie_epsilon,
        cluster_agrees(s, cfg),
    ensures
        separated(s, cfg),
{
    lemma_fold_hover_first_closest(s, cfg.distance_floor);
    assert forall|x: (u64, IntersectionResult), y: (u64, IntersectionResult)|
        #[trigger] in_tie_cluster(s, cfg, x) && #[trigger] s.contains(y) && survives(y.1, cfg.distance_floor)
            && !in_tie_cluster(s, cfg, y) implies y.1.deepest_point_distance >= x.1.deepest_point_distance
            + cfg.tie_epsilon by {
        let yi = choose|i: int| 0 <= i < s.len() && s[i] == y;
        assert(survives(s[yi].1, cfg.distance_floor));
        assert(any_survivor(s, cfg.distance_floor));
        let (mid, _) = crate::reduce::fold_hover(s, cfg.distance_floor)->Some_0;
        let m = choose|i: int| first_closest(s, cfg.distance_floor, i) && #[trigger] s[i].0 == mid;
        let e = s[m];
        assert(s.contains(e));
        assert forall|z: (u64, IntersectionResult)|
            #[trigger] s.contains(z) && survives(z.1, cfg.distance_floor) implies e.1.deepest_point_distance
                < z.1.deepest_point_distance + cfg.tie_epsilon by {
            let zi = choose|i: int| 0 <= i < s.len() && s[i] == z;
            assert(survives(s[zi].1, cfg.distance_floor));
        }
        assert(in_tie_cluster(s, cfg, e));
        assert(x.1 == e.1);
        let z = choose|z: (u64, IntersectionResult)|
            #[trigger] s.contains(z) && survives(z.1, cfg.distance_floor) && !(y.1.deepest_point_distance
                < z.1.deepest_point_distance + cfg.tie_epsilon);
        let zi = choose|i: int| 0 <= i < s.len() && s[i] == z;
        assert(survives(s[zi].1, cfg.distance_floor));
    }
}

/// Folding the same results in any two orders gives the same set of winners
/// and the same best result, whenever every result within the tie epsilon of
/// the closest hit is that same result.
pub proof fn lemma_fold_order_independent(
    s1: Seq<(u64, IntersectionResult)>,
    s2: Seq<(u64, IntersectionResult)>,
    cfg: ArbitrationConfig,
)
    requires
        s1.to_multiset() == s2.to_multiset(),
        0 < cfg.tie_epsilon,
        cluster_agrees(s1, cfg),
    ensures
        fold_hits(s1, cfg) is None <==> fold_hits(s2, cfg) is None,
        fold_hits(s1, cfg) matches Some((w1, b1)) ==> (fold_hits(s2, cfg) matches Some((w2, b2))
            && w1.to_set() == w2.to_set() && b1 == b2),
{
    lemma_same_contents(s1, s2, cfg);
    lemma_agreeing_cluster_is_separated(s1, cfg);
    lemma_fold_winners_order_independent(s1, s2, cfg);
    lemma_fold_groups_cluster(s1, cfg);
    lemma_fold_groups_cluster(s2, cfg);
}

} // verus!
