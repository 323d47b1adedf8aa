use vstd::prelude::*;
use crate::ray::IntersectionResult;
use crate::reduce::{ArbitrationConfig, HitGroup, group_view, combine, fold_hit};
use crate::registry::Registry;
use crate::capture::{CaptureState, capture_step, vec_contains};

verus! {

/// What one pointer cycle decided.
#[derive(Debug)]
pub enum ArbitrationOutcome {
    /// The candidate holds the input stream exclusively.
    Captured(u64),
    /// The closest hits, all tied.
    Hit(HitGroup),
    /// Nothing was hit.
    NoHit,
}

/// `o` is the outcome of a cycle with capture decision `capture` and folded
/// group `group`.
pub open spec fn describes(
    o: ArbitrationOutcome,
    capture: Option<u64>,
    group: Option<(Seq<u64>, IntersectionResult)>,
) -> bool {
    match capture {
        Some(id) => o matches ArbitrationOutcome::Captured(x) && x == id,
        None => match group {
            None => o is NoHit,
            Some(g) => o matches ArbitrationOutcome::Hit(h) && h@ == g,
        },
    }
}

/// What the caller does at the start of a cycle.
#[derive(Debug)]
pub enum CyclePlan {
    /// Capture overrides geometry: no query runs this cycle.
    Captured(u64),
    /// Query every listed candidate and hand each result back with `token`.
    Query { token: u64, ids: Vec<u64> },
}

/// The requests of `requests` whose ids are registered in `candidates`.
pub open spec fn live_requests<S>(requests: Set<u64>, candidates: Map<u64, S>) -> Set<u64> {
    requests.filter(|id: u64| candidates.contains_key(id))
}

/// The pointer arbitration engine: the candidate registry, the capture state
/// and the cycle in progress.
pub struct PointerHandler<S> {
    registry: Registry<S>,
    capture: CaptureState,
    requests: Vec<u64>,
    cycle: u64,
    open: bool,
    cycle_capture: Option<u64>,
    fold: Option<HitGroup>,
    cfg: ArbitrationConfig,
}

impl<S> PointerHandler<S> {
    pub closed spec fn candidates(&self) -> Map<u64, S> {
        self.registry@
    }

    pub closed spec fn captured(&self) -> Option<u64> {
        self.capture.captured
    }

    /// The capture requests outstanding for the next cycle.
    pub closed spec fn requests(&self) -> Set<u64> {
        self.requests@.to_set()
    }

    /// The token of the latest cycle.
    pub closed spec fn cycle(&self) -> u64 {
        self.cycle
    }

    /// The latest cycle has begun and has not been finished.
    pub closed spec fn is_open(&self) -> bool {
        self.open
    }

    /// The capture that decided the latest cycle, if any.
    pub closed spec fn cycle_capture(&self) -> Option<u64> {
        self.cycle_capture
    }

    /// The results of the latest cycle folded so far.
    pub closed spec fn pending(&self) -> Option<(Seq<u64>, IntersectionResult)> {
        group_view(self.fold)
    }

    pub closed spec fn config(&self) -> ArbitrationConfig {
        self.cfg
    }

    pub fn new(cfg: ArbitrationConfig) -> (a: Self)
        ensures
            a.candidates() == Map::<u64, S>::empty(),
            a.captured() is None,
            a.requests() == Set::<u64>::empty(),
            !a.is_open(),
            a.config() == cfg,
    {
        let a = PointerHandler {
            registry: Registry::new(),
            capture: CaptureState::new(),
            requests: Vec::new(),
            cycle: 0,
            open: false,
            cycle_capture: None,
            fold: None,
            cfg,
        };
        assert(a.requests@.to_set() =~= Set::<u64>::empty());
        a
    }

    /// A candidate appeared, or its shape changed.
    pub fn create_handler(&mut self, id: u64, shape: S)
        ensures
            final(self).candidates() == old(self).candidates().insert(id, shape),
            final(self).captured() == old(self).captured(),
            final(self).requests() == old(self).requests(),
            final(self).cycle() == old(self).cycle(),
            final(self).is_open() == old(self).is_open(),
            final(self).cycle_capture() == old(self).cycle_capture(),
            final(self).pending() == old(self).pending(),
            final(self).config() == old(self).config(),
    {
        self.registry.upsert(id, shape);
    }

    /// A candidate went away: it leaves the registry and loses any capture.
    pub fn destroy_handler(&mut self, id: u64)
        ensures
            final(self).candidates() == old(self).candidates().remove(id),
            final(self).captured() == (if old(self).captured() == Some(id) {
                None
            } else {
                old(self).captured()
            }),
            final(self).requests() == old(self).requests(),
            final(self).cycle() == old(self).cycle(),
            final(self).is_open() == old(self).is_open(),
            final(self).cycle_capture() == old(self).cycle_capture(),
            final(self).pending() == old(self).pending(),
            final(self).config() == old(self).config(),
    {
        self.registry.remove(id);
        self.capture.forget(id);
    }

    /// The current capture, for the sink that toggles exclusive input.
    pub fn capture_state(&self) -> (c: CaptureState)
        ensures
            c.captured == self.captured(),
    {
        self.capture
    }

    /// The shape handle of candidate `id`, if it is registered.
    pub fn shape(&self, id: u64) -> (r: Option<&S>)
        ensures
            match r {
                Some(s) => self.candidates().contains_key(id) && *s == self.candidates()[id],
                None => !self.candidates().contains_key(id),
            },
    {
        self.registry.get(id)
    }

    /// Candidate `id` asks to hold the input stream for the next cycle.
    pub fn request_capture_handler(&mut self, id: u64)
        ensures
            final(self).requests() == old(self).requests().insert(id),
            final(self).candidates() == old(self).candidates(),
            final(self).captured() == old(self).captured(),
            final(self).cycle() == old(self).cycle(),
            final(self).is_open() == old(self).is_open(),
            final(self).cycle_capture() == old(self).cycle_capture(),
            final(self).pending() == old(self).pending(),
            final(self).config() == old(self).config(),
    {
        if !vec_contains(&self.requests, id) {
            self.requests.push(id);
            assert(self.requests@.to_set() =~= old(self).requests@.to_set().insert(id)) by {
                assert(self.requests@.last() == id);
                assert forall|x: u64| old(self).requests@.contains(x) implies self.requests@.contains(x) by {
                    let j = choose|j: int| 0 <= j < old(self).requests@.len() && old(self).requests@[j] == x;
                    assert(self.requests@[j] == x);
                }
                assert forall|x: u64| self.requests@.contains(x) && x != id implies old(self).requests@.contains(x) by {
                    let j = choose|j: int| 0 <= j < self.requests@.len() && self.requests@[j] == x;
                    assert(old(self).requests@[j] == x);
                }
            }
        } else {
            assert(self.requests@.to_set() =~= old(self).requests@.to_set().insert(id));
        }
    }

    /// The outstanding requests of registered candidates.
    fn live_request_ids(&self) -> (v: Vec<u64>)
        ensures
            v@.to_set() == live_requests(self.requests(), self.candidates()),
    {
        let mut v: Vec<u64> = Vec::new();
        let mut i: usize = 0;
        while i < self.requests.len()
            invariant
                i <= self.requests.len(),
                forall|x: u64|
                    #[trigger] v@.contains(x) <==> (exists|j: int| 0 <= j < i && self.requests@[j] == x)
                        && self.registry@.contains_key(x),
            decreases self.requests.len() - i,
        {
            let id = self.requests[i];
            let ghost before = v@;
            if self.registry.contains(id) {
                v.push(id);
            }
            assert forall|x: u64|
                #[trigger] v@.contains(x) <==> (exists|j: int| 0 <= j < i + 1 && self.requests@[j] == x)
                    && self.registry@.contains_key(x) by {
                if before.contains(x) {
                    let j = choose|j: int| 0 <= j < before.len() && before[j] == x;
                    assert(v@[j] == x);
                }
                if v@.contains(x) && !before.contains(x) {
                    let j = choose|j: int| 0 <= j < v@.len() && v@[j] == x;
                    if j < before.len() {
                        assert(before[j] == x);
                    }
                    assert(self.requests@[i as int] == x);
                }
                if x == id && self.registry@.contains_key(x) {
                    assert(v@[v@.len() - 1] == x);
                }
            }
            i = i + 1;
        }
        assert(v@.to_set() =~= live_requests(self.requests(), self.candidates())) by {
            assert forall|x: u64| v@.to_set().contains(x) <==> live_requests(self.requests(), self.candidates()).contains(x) by {
                if self.requests@.contains(x) {
                    let j = choose|j: int| 0 <= j < self.requests@.len() && self.requests@[j] == x;
                }
            }
        }
        v
    }

    /// Starts a cycle. The capture state takes one transition on the
    /// outstanding requests of registered candidates, and the requests are
    /// cleared: a capture lasts only while it is requested every cycle. If a
    /// capture holds, it decides the cycle; otherwise the plan lists every
    /// registered candidate to query, under a fresh token.
    pub fn update_pointer(&mut self) -> (plan: CyclePlan)
        ensures
            capture_step(
                old(self).captured(),
                live_requests(old(self).requests(), old(self).candidates()),
                final(self).captured(),
            ),
            match old(self).captured() {
                Some(a) => {
                    &&& old(self).requests().contains(a) && old(self).candidates().contains_key(a)
                        ==> final(self).captured() == Some(a)
                    &&& !old(self).requests().contains(a) ==> final(self).captured() != Some(a)
                },
                None => true,
            },
            final(self).requests() == Set::<u64>::empty(),
            final(self).candidates() == old(self).candidates(),
            final(self).config() == old(self).config(),
            final(self).cycle() != old(self).cycle(),
            final(self).is_open(),
            final(self).pending() is None,
            final(self).cycle_capture() == final(self).captured(),
            match plan {
                CyclePlan::Captured(id) => final(self).captured() == Some(id),
                CyclePlan::Query { token, ids } => {
                    &&& final(self).captured() is None
                    &&& token == final(self).cycle()
                    &&& ids@.to_set() == final(self).candidates().dom()
                    &&& ids@.no_duplicates()
                },
            },
    {
        let live = self.live_request_ids();
        self.capture.resolve(&live);
        self.requests = Vec::new();
        assert(self.requests@.to_set() =~= Set::<u64>::empty());
        self.cycle = self.cycle.wrapping_add(1);
        self.open = true;
        self.fold = None;
        self.cycle_capture = self.capture.captured;
        match self.capture.captured {
            Some(id) => CyclePlan::Captured(id),
            None => CyclePlan::Query { token: self.cycle, ids: self.registry.ids() },
        }
    }

    /// Folds in the result for candidate `id` of the cycle `token`. A result
    /// of an earlier cycle, of a finished one, or of one that a capture
    /// decided, changes nothing.
    pub fn accept_result(&mut self, token: u64, id: u64, r: &IntersectionResult)
        ensures
            final(self).pending() == (if token == old(self).cycle() && old(self).is_open()
                && old(self).cycle_capture() is None {
                combine(old(self).pending(), id, *r, old(self).config())
            } else {
                old(self).pending()
            }),
            final(self).candidates() == old(self).candidates(),
            final(self).captured() == old(self).captured(),
            final(self).requests() == old(self).requests(),
            final(self).cycle() == old(self).cycle(),
            final(self).is_open() == old(self).is_open(),
            final(self).cycle_capture() == old(self).cycle_capture(),
            final(self).config() == old(self).config(),
    {
        if token == self.cycle && self.open && self.cycle_capture.is_none() {
            let f = self.fold.take();
            self.fold = fold_hit(f, id, r, &self.cfg);
        }
    }

    /// Ends the cycle `token` and hands over its outcome; `None` when `token`
    /// is not the latest cycle or that cycle was already finished.
    pub fn finish_cycle(&mut self, token: u64) -> (o: Option<ArbitrationOutcome>)
        ensures
            token == old(self).cycle() && old(self).is_open() ==> (o matches Some(out) && describes(
                out,
                old(self).cycle_capture(),
                old(self).pending(),
            )),
            !(token == old(self).cycle() && old(self).is_open()) ==> o is None,
            final(self).is_open() == (old(self).is_open() && token != old(self).cycle()),
            final(self).pending() is None || final(self).pending() == old(self).pending(),
            final(self).candidates() == old(self).candidates(),
            final(self).captured() == old(self).captured(),
            final(self).requests() == old(self).requests(),
            final(self).cycle() == old(self).cycle(),
            final(self).cycle_capture() == old(self).cycle_capture(),
            final(self).config() == old(self).config(),
    {
        if token != self.cycle || !self.open {
            return None;
        }
        self.open = false;
        match self.cycle_capture {
            Some(id) => Some(ArbitrationOutcome::Captured(id)),
            None => match self.fold.take() {
                Some(h) => Some(ArbitrationOutcome::Hit(h)),
                None => Some(ArbitrationOutcome::NoHit),
            },
        }
    }
}

} // verus!
