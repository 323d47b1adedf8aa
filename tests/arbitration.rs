use spatializer::capture::{lowest_id, CaptureState};
use spatializer::cycle::{ArbitrationOutcome, CyclePlan, PointerHandler};
use spatializer::ray::{is_tied, IntersectionResult, Vec3};
use spatializer::reduce::{reduce_hits, spatial_beam_target, ArbitrationConfig, HitGroup};

const MM: i64 = 1_000;
const M: i64 = 1_000_000;

fn cfg() -> ArbitrationConfig {
    ArbitrationConfig { distance_floor: MM, tie_epsilon: MM }
}

fn result(hit: bool, d: i64) -> IntersectionResult {
    IntersectionResult {
        hit,
        min_distance: if hit { -1 } else { 1 },
        deepest_point_distance: d,
        ray_origin: Vec3 { x: 0, y: 0, z: 0 },
        ray_direction: Vec3 { x: 0, y: 0, z: -M },
    }
}

fn sorted(mut v: Vec<u64>) -> Vec<u64> {
    v.sort();
    v
}

fn group(o: Option<HitGroup>) -> (Vec<u64>, i64) {
    let g = o.expect("a hit");
    (sorted(g.winners), g.best.deepest_point_distance)
}

#[test]
fn ties_group_against_running_best() {
    let rs = vec![(1, result(true, M)), (2, result(true, M + 500)), (3, result(true, M + 2 * MM))];
    assert_eq!(group(reduce_hits(&rs, &cfg())), (vec![1, 2], M));
}

#[test]
fn ties_regroup_when_closest_arrives_last() {
    let rs = vec![(3, result(true, M + 2 * MM)), (2, result(true, M + 500)), (1, result(true, M))];
    let g = reduce_hits(&rs, &cfg()).unwrap();
    assert_eq!(g.winners, vec![2, 1]);
    assert_eq!(g.best.deepest_point_distance, M + 500);
}

#[test]
fn tie_chain_is_not_transitive() {
    let rs = vec![(1, result(true, M)), (2, result(true, M + 900)), (3, result(true, M + 1800))];
    assert_eq!(group(reduce_hits(&rs, &cfg())), (vec![1, 2], M));
}

#[test]
fn strictly_closer_hit_replaces_group() {
    let rs = vec![(1, result(true, 3 * M)), (2, result(true, 3 * M)), (3, result(true, M))];
    assert_eq!(group(reduce_hits(&rs, &cfg())), (vec![3], M));
}

#[test]
fn order_does_not_matter_without_near_ties() {
    let a = (1, result(true, 2 * M));
    let b = (2, result(true, M));
    let c = (3, result(true, M));
    let d = (4, result(false, M / 2));
    let orders = vec![
        vec![a, b, c, d],
        vec![d, c, b, a],
        vec![b, d, a, c],
        vec![c, a, d, b],
    ];
    for o in orders {
        assert_eq!(group(reduce_hits(&o, &cfg())), (vec![2, 3], M));
    }
}

#[test]
fn all_misses_give_no_hit() {
    let rs = vec![(1, result(false, M)), (2, result(false, 2 * M))];
    assert!(reduce_hits(&rs, &cfg()).is_none());
    assert!(reduce_hits(&Vec::new(), &cfg()).is_none());
}

#[test]
fn hit_below_floor_is_dropped() {
    let rs = vec![(1, result(true, 500))];
    assert!(reduce_hits(&rs, &cfg()).is_none());
    let rs = vec![(1, result(true, 500)), (2, result(true, 3 * M))];
    assert_eq!(group(reduce_hits(&rs, &cfg())), (vec![2], 3 * M));
    let rs = vec![(1, result(true, MM))];
    assert_eq!(group(reduce_hits(&rs, &cfg())), (vec![1], MM));
}

#[test]
fn tie_test_has_no_overflow() {
    assert!(!is_tied(i64::MIN, i64::MAX, MM));
    assert!(!is_tied(i64::MAX, i64::MIN, i64::MAX));
    assert!(is_tied(i64::MAX, i64::MAX - 1, 2));
    assert!(!is_tied(5, 5, 0));
    assert!(is_tied(5, 6, 2));
    assert!(!is_tied(5, 7, 2));
}

fn arbiter_with_candidates() -> PointerHandler<&'static str> {
    let mut a = PointerHandler::new(cfg());
    a.create_handler(1, "A");
    a.create_handler(2, "B");
    a.create_handler(3, "C");
    a.create_handler(4, "D");
    a
}

fn distances(id: u64) -> IntersectionResult {
    match id {
        1 => result(true, 2 * M),
        2 => result(true, M),
        3 => result(true, M + 500),
        _ => result(false, M / 2),
    }
}

fn run_queries(a: &mut PointerHandler<&'static str>, token: u64, ids: &[u64]) -> Option<ArbitrationOutcome> {
    for id in ids {
        a.accept_result(token, *id, &distances(*id));
    }
    a.finish_cycle(token)
}

#[test]
fn end_to_end_tied_closest_pair() {
    let mut a = arbiter_with_candidates();
    match a.update_pointer() {
        CyclePlan::Query { token, ids } => {
            assert_eq!(sorted(ids.clone()), vec![1, 2, 3, 4]);
            match run_queries(&mut a, token, &ids) {
                Some(ArbitrationOutcome::Hit(g)) => {
                    assert_eq!(sorted(g.winners), vec![2, 3]);
                    assert!((g.best.deepest_point_distance - M).abs() < MM);
                }
                other => panic!("unexpected outcome {:?}", other),
            }
        }
        other => panic!("unexpected plan {:?}", other),
    }
}

#[test]
fn end_to_end_capture_overrides_geometry() {
    let mut a = arbiter_with_candidates();
    a.request_capture_handler(1);
    match a.update_pointer() {
        CyclePlan::Captured(id) => assert_eq!(id, 1),
        other => panic!("unexpected plan {:?}", other),
    }
}

#[test]
fn renewed_capture_keeps_precedence_and_ignores_results() {
    let mut a = arbiter_with_candidates();
    a.request_capture_handler(1);
    let _ = a.update_pointer();
    a.request_capture_handler(1);
    a.request_capture_handler(2);
    match a.update_pointer() {
        CyclePlan::Captured(id) => assert_eq!(id, 1),
        other => panic!("unexpected plan {:?}", other),
    }
}

#[test]
fn captured_cycle_ignores_geometric_results() {
    let mut a = arbiter_with_candidates();
    a.request_capture_handler(1);
    let _ = a.update_pointer();
    a.request_capture_handler(1);
    let plan = a.update_pointer();
    assert!(matches!(plan, CyclePlan::Captured(1)));
    // The caller learns no token from a captured plan; even a guess is ignored.
    for token in 0..4 {
        a.accept_result(token, 2, &distances(2));
    }
    for token in 0..4 {
        if let Some(o) = a.finish_cycle(token) {
            assert!(matches!(o, ArbitrationOutcome::Captured(1)));
        }
    }
}

#[test]
fn unrenewed_capture_lapses_to_geometry() {
    let mut a = arbiter_with_candidates();
    a.request_capture_handler(1);
    assert!(matches!(a.update_pointer(), CyclePlan::Captured(1)));
    match a.update_pointer() {
        CyclePlan::Query { token, ids } => match run_queries(&mut a, token, &ids) {
            Some(ArbitrationOutcome::Hit(g)) => assert_eq!(sorted(g.winners), vec![2, 3]),
            other => panic!("unexpected outcome {:?}", other),
        },
        other => panic!("unexpected plan {:?}", other),
    }
}

#[test]
fn lapsed_capture_passes_to_another_requester() {
    let mut a = arbiter_with_candidates();
    a.request_capture_handler(1);
    assert!(matches!(a.update_pointer(), CyclePlan::Captured(1)));
    assert_eq!(a.capture_state().captured, Some(1));
    a.request_capture_handler(3);
    assert!(matches!(a.update_pointer(), CyclePlan::Captured(3)));
    assert_eq!(a.capture_state().captured, Some(3));
    let _ = a.update_pointer();
    assert_eq!(a.capture_state().captured, None);
}

#[test]
fn lowest_requester_wins_capture() {
    let mut a = arbiter_with_candidates();
    a.request_capture_handler(4);
    a.request_capture_handler(2);
    a.request_capture_handler(4);
    assert!(matches!(a.update_pointer(), CyclePlan::Captured(2)));
}

#[test]
fn request_from_unknown_candidate_is_ignored() {
    let mut a = arbiter_with_candidates();
    a.request_capture_handler(99);
    assert!(matches!(a.update_pointer(), CyclePlan::Query { .. }));
}

#[test]
fn removed_candidate_loses_capture() {
    let mut a = arbiter_with_candidates();
    a.request_capture_handler(1);
    assert!(matches!(a.update_pointer(), CyclePlan::Captured(1)));
    a.destroy_handler(1);
    a.request_capture_handler(1);
    match a.update_pointer() {
        CyclePlan::Query { ids, .. } => assert_eq!(sorted(ids), vec![2, 3, 4]),
        other => panic!("unexpected plan {:?}", other),
    }
}

#[test]
fn empty_registry_gives_no_hit() {
    let mut a: PointerHandler<&'static str> = PointerHandler::new(cfg());
    match a.update_pointer() {
        CyclePlan::Query { token, ids } => {
            assert!(ids.is_empty());
            assert!(matches!(a.finish_cycle(token), Some(ArbitrationOutcome::NoHit)));
        }
        other => panic!("unexpected plan {:?}", other),
    }
}

#[test]
fn stale_results_never_reach_the_next_cycle() {
    let mut a = arbiter_with_candidates();
    let first = match a.update_pointer() {
        CyclePlan::Query { token, .. } => token,
        other => panic!("unexpected plan {:?}", other),
    };
    a.accept_result(first, 3, &distances(3));
    let second = match a.update_pointer() {
        CyclePlan::Query { token, .. } => token,
        other => panic!("unexpected plan {:?}", other),
    };
    assert_ne!(first, second);
    a.accept_result(first, 2, &distances(2));
    assert!(a.finish_cycle(first).is_none());
    a.accept_result(second, 1, &distances(1));
    match a.finish_cycle(second) {
        Some(ArbitrationOutcome::Hit(g)) => assert_eq!(g.winners, vec![1]),
        other => panic!("unexpected outcome {:?}", other),
    }
    assert!(a.finish_cycle(second).is_none());
}

#[test]
fn hover_picks_first_of_closest() {
    let rs = vec![
        (1, result(true, 2 * M)),
        (2, result(true, M)),
        (3, result(true, M)),
        (4, result(false, M / 2)),
        (5, result(true, 100)),
    ];
    assert_eq!(spatial_beam_target(&rs, MM), Some(2));
    assert_eq!(spatial_beam_target(&rs, 0), Some(5));
    assert_eq!(spatial_beam_target(&Vec::new(), MM), None);
    let misses = vec![(1, result(false, M))];
    assert_eq!(spatial_beam_target(&misses, MM), None);
}

#[test]
fn capture_state_steps() {
    let mut s = CaptureState::new();
    s.resolve(&vec![]);
    assert_eq!(s.captured, None);
    s.resolve(&vec![9, 4, 7]);
    assert_eq!(s.captured, Some(4));
    s.resolve(&vec![1, 4]);
    assert_eq!(s.captured, Some(4));
    s.resolve(&vec![9]);
    assert_eq!(s.captured, Some(9));
    s.forget(3);
    assert_eq!(s.captured, Some(9));
    s.forget(9);
    assert_eq!(s.captured, None);
    assert_eq!(lowest_id(&vec![5, 3, 8, 3]), Some(3));
    assert_eq!(lowest_id(&vec![]), None);
}
