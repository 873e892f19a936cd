//! Object identifiers and their generator.

use vstd::prelude::*;

verus! {

/// The identity of one object. Identifiers are handed out in increasing order
/// and wrap around; uniqueness comes from probing the live registry.
#[derive(Debug, PartialEq, Eq, PartialOrd, Ord, Copy, Clone, Hash, Structural)]
pub struct UfoId(pub u64);

/// Generator of fresh identifiers: it remembers the last one it handed out.
pub struct UfoIdGen {
    current: u64,
}

/// The `j`-th candidate that is probed after `from`, wrapping around.
pub open spec fn spec_candidate(from: u64, j: int) -> u64 {
    ((from as int + j) % 0x1_0000_0000_0000_0000) as u64
}

/// How many candidates are probed from `from` until `to` is reached: between
/// 1 and 2^64.
pub open spec fn spec_probe_distance(from: u64, to: u64) -> int {
    (to as int - from as int - 1) % 0x1_0000_0000_0000_0000 + 1
}

/// Whatever `is_unused` answers for `id`, it is `true`.
pub open spec fn surely_unused<P: Fn(&UfoId) -> bool>(is_unused: P, id: UfoId) -> bool {
    forall|b: bool| call_ensures(is_unused, (&id,), b) ==> b
}

/// The identifiers below `n`.
pub open spec fn ids_below(n: nat) -> Set<u64> {
    Set::new(|k: u64| (k as nat) < n)
}

/// There are `n` identifiers below `n`.
pub proof fn lemma_ids_below(n: nat)
    requires
        n <= 0x1_0000_0000_0000_0000,
    ensures
        ids_below(n).finite(),
        ids_below(n).len() == n,
    decreases n,
{
    if n == 0 {
        assert(ids_below(0) =~= Set::<u64>::empty());
    } else {
        lemma_ids_below((n - 1) as nat);
        assert(ids_below(n) =~= ids_below((n - 1) as nat).insert((n - 1) as u64));
    }
}

/// A set of identifiers that a machine can count leaves one unused.
pub proof fn lemma_unused_id_exists(used: Set<u64>)
    requires
        used.finite(),
        used.len() <= usize::MAX,
    ensures
        exists|k: u64| !used.contains(k),
{
    if forall|k: u64| used.contains(k) {
        let all = ids_below((usize::MAX + 1) as nat);
        lemma_ids_below((usize::MAX + 1) as nat);
        vstd::set_lib::lemma_len_subset(all, used);
    }
}

impl UfoIdGen {
    /// The identifier that was handed out last, 0 at the start.
    pub closed spec fn last(&self) -> u64 {
        self.current
    }

    /// A generator whose first candidate is 1.
    pub fn new() -> (g: UfoIdGen)
        ensures
            g.last() == 0,
    {
        UfoIdGen { current: 0 }
    }

    /// The next identifier that `is_unused` accepts. Candidates are probed in
    /// order from the successor of the last identifier, wrapping around; the
    /// first accepted one is returned and remembered. Some identifier that is
    /// always accepted must exist, else the search would not end.
    pub fn next<P>(&mut self, is_unused: P) -> (id: UfoId) where P: Fn(&UfoId) -> bool
        requires
            forall|k: UfoId| call_requires(is_unused, (&k,)),
            exists|k: UfoId| surely_unused(is_unused, k),
        ensures
            call_ensures(is_unused, (&id,), true),
            final(self).last() == id.0,
            forall|j: int|
                1 <= j < spec_probe_distance(old(self).last(), id.0) ==> call_ensures(
                    is_unused,
                    (&UfoId(#[trigger] spec_candidate(old(self).last(), j)),),
                    false,
                ),
    {
        let ghost witness: UfoId = choose|k: UfoId| surely_unused(is_unused, k);
        let ghost start: u64 = self.current;
        let mut n: u64 = self.current;
        let mut steps: Ghost<int> = Ghost(0);
        loop
            invariant
                forall|k: UfoId| call_requires(is_unused, (&k,)),
                surely_unused(is_unused, witness),
                start == old(self).last(),
                0 <= steps@ < 0x1_0000_0000_0000_0000,
                n == spec_candidate(start, steps@),
                steps@ < spec_probe_distance(start, witness.0),
                forall|j: int|
                    1 <= j <= steps@ ==> call_ensures(
                        is_unused,
                        (&UfoId(#[trigger] spec_candidate(start, j)),),
                        false,
                    ),
            decreases spec_probe_distance(start, witness.0) - steps@,
        {
            n = n.wrapping_add(1);
            proof {
                steps@ = steps@ + 1;
            }
            let id = UfoId(n);
            assert(n == spec_candidate(start, steps@));
            if is_unused(&id) {
                self.current = n;
                assert(spec_probe_distance(start, n) == steps@);
                return id;
            }
            assert(id != witness);
        }
    }
}

} // verus!
