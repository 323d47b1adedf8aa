use vstd::prelude::*;

verus! {

/// `id` is the lowest member of `s`.
pub open spec fn is_lowest(id: u64, s: Set<u64>) -> bool {
    s.contains(id) && forall|y: u64| #[trigger] s.contains(y) ==> id <= y
}

/// One transition of the capture state machine, from `before` to `after`,
/// given the requests outstanding this cycle. A capture lapses when its id is
/// no longer requested; an idle state takes the lowest requested id.
pub open spec fn capture_step(before: Option<u64>, requests: Set<u64>, after: Option<u64>) -> bool {
    match before {
        Some(a) if requests.contains(a) => after == Some(a),
        _ => if requests.is_empty() {
            after is None
        } else {
            after matches Some(x) && is_lowest(x, requests)
        },
    }
}

/// The lowest id among `v`, if any.
pub fn lowest_id(v: &Vec<u64>) -> (r: Option<u64>)
    ensures
        match r {
            Some(x) => is_lowest(x, v@.to_set()),
            None => v@.to_set().is_empty(),
        },
{
    if v.len() == 0 {
        assert(v@.to_set() =~= Set::<u64>::empty());
        return None;
    }
    let mut m: u64 = v[0];
    let mut i: usize = 1;
    let ghost mut at: int = 0;
    while i < v.len()
        invariant
            1 <= i <= v.len(),
            0 <= at < i,
            v@[at] == m,
            forall|j: int| 0 <= j < i ==> m <= #[trigger] v@[j],
        decreases v.len() - i,
    {
        if v[i] < m {
            m = v[i];
            proof {
                at = i as int;
            }
        }
        i = i + 1;
    }
    assert(v@.contains(m));
    assert forall|y: u64| #[trigger] v@.to_set().contains(y) implies m <= y by {
        let j = choose|j: int| 0 <= j < v@.len() && v@[j] == y;
    }
    Some(m)
}

/// Who, if anyone, holds the input stream exclusively.
#[derive(Clone, Copy, Debug, PartialEq, Eq, Structural)]
pub struct CaptureState {
    pub captured: Option<u64>,
}

impl CaptureState {
    pub fn new() -> (s: Self)
        ensures
            s.captured is None,
    {
        CaptureState { captured: None }
    }

    /// Runs the transition of one cycle on the requests outstanding in it.
    pub fn resolve(&mut self, requests: &Vec<u64>)
        ensures
            capture_step(old(self).captured, requests@.to_set(), final(self).captured),
    {
        let keep = match self.captured {
            Some(a) => vec_contains(requests, a),
            None => false,
        };
        if !keep {
            self.captured = lowest_id(requests);
        }
    }

    /// Drops the capture held by `id`, which has gone away.
    pub fn forget(&mut self, id: u64)
        ensures
            final(self).captured == (if old(self).captured == Some(id) {
                None
            } else {
                old(self).captured
            }),
    {
        if self.captured == Some(id) {
            self.captured = None;
        }
    }
}

/// Whether `x` occurs in `v`.
pub fn vec_contains(v: &Vec<u64>, x: u64) -> (b: bool)
    ensures
        b == v@.contains(x),
{
    let mut i: usize = 0;
    while i < v.len()
        invariant
            i <= v.len(),
            forall|j: int| 0 <= j < i ==> v@[j] != x,
        decreases v.len() - i,
    {
        if v[i] == x {
            return true;
        }
        i = i + 1;
    }
    false
}

} // verus!
