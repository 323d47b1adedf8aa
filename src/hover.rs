use vstd::prelude::*;
use crate::ray::IntersectionResult;
use crate::reduce::{spatial_beam_target, fold_hover};

verus! {

/// What the hover router does with one batch of events.
#[derive(Clone, Copy, Debug, PartialEq, Eq, Structural)]
pub struct HoverDecision {
    /// The candidate that receives the batch, if any was hit.
    pub target: Option<u64>,
    /// The previous target, which loses the hover and must be reset.
    pub reset: Option<u64>,
}

/// Routes batches of keyed events to the single closest candidate.
#[derive(Clone, Copy, Debug, PartialEq, Eq, Structural)]
pub struct HoverRouter {
    /// The candidate that received the latest batch.
    pub last: Option<u64>,
}

/// The decision for a cycle whose closest candidate is `target`, after
/// `last`: a miss changes nothing, and a new target resets the old one.
pub open spec fn hover_step(last: Option<u64>, target: Option<u64>) -> (HoverDecision, Option<u64>) {
    match target {
        None => (HoverDecision { target: None, reset: None }, last),
        Some(t) => {
            let reset = match last {
                Some(l) if l != t => Some(l),
                _ => None,
            };
            (HoverDecision { target: Some(t), reset }, Some(t))
        },
    }
}

impl HoverRouter {
    pub fn new() -> (r: Self)
        ensures
            r.last is None,
    {
        HoverRouter { last: None }
    }

    /// Moves the hover to `target`, the closest candidate of this cycle.
    pub fn route(&mut self, target: Option<u64>) -> (d: HoverDecision)
        ensures
            (d, final(self).last) == hover_step(old(self).last, target),
    {
        match target {
            None => HoverDecision { target: None, reset: None },
            Some(t) => {
                let reset = match self.last {
                    Some(l) => if l != t {
                        Some(l)
                    } else {
                        None
                    },
                    None => None,
                };
                self.last = Some(t);
                HoverDecision { target: Some(t), reset }
            },
        }
    }

    /// Picks the closest candidate among the results of one cycle and moves
    /// the hover to it.
    pub fn route_results(&mut self, results: &Vec<(u64, IntersectionResult)>, floor: i64) -> (d:
        HoverDecision)
        ensures
            (d, final(self).last) == hover_step(
                old(self).last,
                match fold_hover(results@, floor) {
                    Some((id, _)) => Some(id),
                    None => None,
                },
            ),
    {
        let target = spatial_beam_target(results, floor);
        self.route(target)
    }
}

} // verus!
