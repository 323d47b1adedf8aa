use vstd::prelude::*;
use std::collections::HashMap;
use vstd::std_specs::iter::IteratorSpec;

verus! {

broadcast use vstd::std_specs::hash::group_hash_axioms;

/// The key or button number that a signed code speaks of.
pub open spec fn code_key(code: i32) -> u32 {
    if code < 0 {
        (-(code as int)) as u32
    } else {
        code as u32
    }
}

/// +1 for a press, -1 for a release, 0 for code zero.
pub open spec fn code_sign(code: i32) -> int {
    if code > 0 {
        1
    } else if code < 0 {
        -1
    } else {
        0
    }
}

/// Presses minus releases recorded for `k` in `m`.
pub open spec fn balance(m: Map<u32, i32>, k: u32) -> int {
    if m.contains_key(k) {
        m[k] as int
    } else {
        0
    }
}

/// The signed code of a press (`pressed`) or a release of `code`.
pub open spec fn update_code(code: u32, pressed: bool) -> i32 {
    if pressed {
        code as i32
    } else {
        (-(code as int)) as i32
    }
}

/// Counting `m` in `k` by the sign of `code` keeps it a valid `i32` above
/// `i32::MIN`.
pub open spec fn counts_in_range(m: Map<u32, i32>, code: i32) -> bool {
    i32::MIN < balance(m, code_key(code)) + code_sign(code) <= i32::MAX
}

/// `|m|` events `(k, pressed)` for key `k` with balance `m`: presses when
/// `m` is negative, releases otherwise.
pub open spec fn events_for(k: u32, m: i32) -> Seq<(u32, bool)> {
    Seq::new((if m < 0 { -(m as int) } else { m as int }) as nat, |_i: int| (k, m < 0))
}

/// The events that bring each `(key, balance)` of `s` back to zero, in order.
pub open spec fn balancing_events(s: Seq<(u32, i32)>) -> Seq<(u32, bool)>
    decreases s.len(),
{
    if s.len() == 0 {
        Seq::empty()
    } else {
        balancing_events(s.drop_last()) + events_for(s.last().0, s.last().1)
    }
}

/// `s` lists the entries of `m`, each once, in some order.
pub open spec fn lists_entries(s: Seq<(u32, i32)>, m: Map<u32, i32>) -> bool {
    s.to_set() == m.kv_pairs() && s.no_duplicates()
}

/// Counts presses against releases per key or button, so that whatever is
/// still held down can be released when input is reset.
pub struct ButtonBlot {
    keys: HashMap<u32, i32>,
}

impl View for ButtonBlot {
    type V = Map<u32, i32>;

    closed spec fn view(&self) -> Map<u32, i32> {
        self.keys@
    }
}

impl ButtonBlot {
    #[verifier::type_invariant]
    closed spec fn balances_negatable(&self) -> bool {
        forall|k: u32| #[trigger] self.keys@.contains_key(k) ==> self.keys@[k] > i32::MIN
    }

    pub fn new() -> (b: Self)
        ensures
            b@ == Map::<u32, i32>::empty(),
    {
        ButtonBlot { keys: HashMap::new() }
    }

    /// Records the signed `code`: positive for a press, negative for a
    /// release of key `|code|`.
    pub fn key_math(&mut self, code: i32)
        requires
            counts_in_range(old(self)@, code),
        ensures
            final(self)@ == old(self)@.insert(
                code_key(code),
                (balance(old(self)@, code_key(code)) + code_sign(code)) as i32,
            ),
    {
        proof {
            use_type_invariant(&*self);
        }
        let key: u32 = if code < 0 {
            (-(code as i64)) as u32
        } else {
            code as u32
        };
        let sign: i32 = if code > 0 {
            1
        } else if code < 0 {
            -1
        } else {
            0
        };
        let current: i32 = match self.keys.get(&key) {
            Some(v) => *v,
            None => 0,
        };
        let mut keys: HashMap<u32, i32> = HashMap::new();
        std::mem::swap(&mut self.keys, &mut keys);
        keys.insert(key, current + sign);
        self.keys = keys;
    }

    pub fn key_pressed(&mut self, code: u32)
        requires
            code <= i32::MAX,
            counts_in_range(old(self)@, code as i32),
        ensures
            final(self)@ == old(self)@.insert(code, (balance(old(self)@, code) + code_sign(code as i32)) as i32),
    {
        self.key_math(code as i32)
    }

    pub fn key_released(&mut self, code: u32)
        requires
            code <= i32::MAX,
            counts_in_range(old(self)@, update_code(code, false)),
        ensures
            final(self)@ == old(self)@.insert(code, (balance(old(self)@, code) - code_sign(code as i32)) as i32),
    {
        self.key_math(-(code as i32))
    }

    pub fn key_update(&mut self, code: u32, pressed: bool)
        requires
            code <= i32::MAX,
            counts_in_range(old(self)@, update_code(code, pressed)),
        ensures
            final(self)@ == old(self)@.insert(
                code,
                (balance(old(self)@, code) + (if pressed {
                    code_sign(code as i32)
                } else {
                    -code_sign(code as i32)
                })) as i32,
            ),
    {
        let c: i32 = if pressed {
            code as i32
        } else {
            -(code as i32)
        };
        self.key_math(c)
    }

    /// Presses minus releases recorded for `key`.
    pub fn balance_of(&self, key: u32) -> (b: i32)
        ensures
            b == balance(self@, key),
    {
        match self.keys.get(&key) {
            Some(v) => *v,
            None => 0,
        }
    }

    /// The entries of the blot, each once, in the map's order.
    fn entries(&self) -> (v: Vec<(u32, i32)>)
        ensures
            lists_entries(v@, self@),
            forall|i: int| 0 <= i < v@.len() ==> #[trigger] v@[i].1 > i32::MIN,
    {
        proof {
            use_type_invariant(self);
        }
        let mut v: Vec<(u32, i32)> = Vec::new();
        let ghost all = vstd::std_specs::hash::spec_hash_map_iter(&self.keys).remaining();
        for p in it: self.keys.iter()
            invariant
                it.seq() == all,
                v@ == all.take(it.index() as int).unref(),
        {
            v.push((*p.0, *p.1));
            assert(v@ =~= all.take(it.index() as int + 1).unref());
        }
        assert(v@ =~= all.unref());
        assert(v@.no_duplicates()) by {
            assert forall|i: int, j: int| 0 <= i < v@.len() && 0 <= j < v@.len() && i != j implies v@[i] != v@[j] by {
                assert(all[i] != all[j]);
            }
        }
        assert forall|i: int| 0 <= i < v@.len() implies #[trigger] v@[i].1 > i32::MIN by {
            assert(self.keys@.contains_key(*all[i].0));
        }
        v
    }

    /// Have all keys that were pressed been released as often?
    pub fn is_clean(&self) -> (b: bool)
        ensures
            b == (forall|k: u32| #[trigger] self@.contains_key(k) ==> self@[k] == 0),
    {
        let e = self.entries();
        let mut i: usize = 0;
        while i < e.len()
            invariant
                i <= e.len(),
                lists_entries(e@, self@),
                forall|j: int| 0 <= j < i ==> (#[trigger] e@[j]).1 == 0,
            decreases e.len() - i,
        {
            if e[i].1 != 0 {
                assert(e@.to_set().contains(e@[i as int]));
                return false;
            }
            i = i + 1;
        }
        assert forall|k: u32| #[trigger] self@.contains_key(k) implies self@[k] == 0 by {
            assert(self@.kv_pairs().contains((k, self@[k])));
            assert(e@.to_set().contains((k, self@[k])));
            let j = choose|j: int| 0 <= j < e@.len() && e@[j] == (k, self@[k]);
        }
        true
    }

    /// The `(key, pressed)` events that bring every key back to zero: for
    /// each key, `|balance|` releases if it was pressed more often than
    /// released, else as many presses. Keys come in the map's order.
    pub fn cleanup_presses_releases(self) -> (r: Vec<(u32, bool)>)
        ensures
            exists|s: Seq<(u32, i32)>| lists_entries(s, self@) && r@ == balancing_events(s),
    {
        let e = self.entries();
        let mut r: Vec<(u32, bool)> = Vec::new();
        let mut i: usize = 0;
        while i < e.len()
            invariant
                i <= e.len(),
                forall|j: int| 0 <= j < e@.len() ==> #[trigger] e@[j].1 > i32::MIN,
                r@ == balancing_events(e@.take(i as int)),
            decreases e.len() - i,
        {
            let (k, m) = e[i];
            let n: u32 = if m < 0 {
                (-m) as u32
            } else {
                m as u32
            };
            let release = m < 0;
            let mut c: u32 = 0;
            while c < n
                invariant
                    c <= n,
                    n == (if m < 0 { -(m as int) } else { m as int }),
                    release == (m < 0),
                    r@ == balancing_events(e@.take(i as int)) + events_for(k, m).take(c as int),
                decreases n - c,
            {
                r.push((k, release));
                assert(events_for(k, m).take(c as int + 1) =~= events_for(k, m).take(c as int).push((k, release)));
                c = c + 1;
            }
            assert(events_for(k, m).take(c as int) =~= events_for(k, m));
            assert(e@.take(i as int + 1).drop_last() =~= e@.take(i as int));
            i = i + 1;
        }
        assert(e@.take(i as int) =~= e@);
        r
    }

    /// Each key with its balance negated: what undoes the recorded presses.
    pub fn cleanup_key_math(self) -> (r: Vec<(u32, i32)>)
        ensures
            exists|s: Seq<(u32, i32)>|
                lists_entries(s, self@) && r@ == s.map_values(|p: (u32, i32)| (p.0, -p.1 as i32)),
    {
        let e = self.entries();
        let mut r: Vec<(u32, i32)> = Vec::new();
        let mut i: usize = 0;
        while i < e.len()
            invariant
                i <= e.len(),
                forall|j: int| 0 <= j < e@.len() ==> #[trigger] e@[j].1 > i32::MIN,
                r@ == e@.take(i as int).map_values(|p: (u32, i32)| (p.0, -p.1 as i32)),
            decreases e.len() - i,
        {
            let (k, m) = e[i];
            r.push((k, -m));
            assert(r@ =~= e@.take(i as int + 1).map_values(|p: (u32, i32)| (p.0, -p.1 as i32)));
            i = i + 1;
        }
        assert(e@.take(i as int) =~= e@);
        r
    }
}

impl Default for ButtonBlot {
    fn default() -> (b: Self)
        ensures
            b@ == Map::<u32, i32>::empty(),
    {
        ButtonBlot::new()
    }
}

} // verus!
