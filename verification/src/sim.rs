//! The simulation: an insertion-ordered collection of rigid bodies and
//! the two-phase step. Each `tick` first runs detection over every
//! unordered pair of distinct bodies, then integrates every body exactly
//! once; detection never interleaves with integration, so the outcome
//! does not depend on mid-scan movement.
use crate::body::{
    spec_move_tick, spec_mutual_candidate, spec_opt_invert, spec_set_intersection, RigidBody,
};
use crate::num::Scalar;
use itertools::Itertools;
use vstd::prelude::*;

verus! {

/// The pairs `(i, j)`, `j` running from its start value up to `n`.
pub open spec fn pair_row(i: int, j: int, n: int) -> Seq<(int, int)>
    decreases n - j,
{
    if j < n {
        seq![(i, j)] + pair_row(i, j + 1, n)
    } else {
        Seq::empty()
    }
}

/// All pairs `(i, j)` with `start <= i < j < n`, rows in order.
pub open spec fn pairs_from(start: int, n: int) -> Seq<(int, int)>
    decreases n - start,
{
    if start < n {
        pair_row(start, start + 1, n) + pairs_from(start + 1, n)
    } else {
        Seq::empty()
    }
}

/// Every unordered pair of distinct indices below `n`, in lexicographic
/// order: (0,1), (0,2), ..., (0,n-1), (1,2), ...
pub open spec fn spec_pairs(n: int) -> Seq<(int, int)> {
    pairs_from(0, n)
}

/// Each element of a row keeps the fixed first index and a second index
/// inside the row's range.
proof fn lemma_pair_row_bounds(i: int, j: int, n: int)
    ensures
        forall|k: int|
            0 <= k < pair_row(i, j, n).len() ==> (#[trigger] pair_row(i, j, n)[k]).0 == i && j
                <= pair_row(i, j, n)[k].1 < n,
    decreases n - j,
{
    if j < n {
        lemma_pair_row_bounds(i, j + 1, n);
        assert forall|k: int| 0 <= k < pair_row(i, j, n).len() implies (#[trigger] pair_row(
            i,
            j,
            n,
        )[k]).0 == i && j <= pair_row(i, j, n)[k].1 < n by {
            if k > 0 {
                assert(pair_row(i, j, n)[k] == pair_row(i, j + 1, n)[k - 1]);
            }
        }
    }
}

/// Every pair lies strictly below `n`, with the first index not below
/// `start` and strictly below the second.
proof fn lemma_pairs_from_bounds(start: int, n: int)
    ensures
        forall|k: int|
            0 <= k < pairs_from(start, n).len() ==> start <= (#[trigger] pairs_from(start, n)[k]).0
                && pairs_from(start, n)[k].0 < pairs_from(start, n)[k].1 < n,
    decreases n - start,
{
    if start < n {
        lemma_pair_row_bounds(start, start + 1, n);
        lemma_pairs_from_bounds(start + 1, n);
        let row = pair_row(start, start + 1, n);
        assert forall|k: int| 0 <= k < pairs_from(start, n).len() implies start <= (
        #[trigger] pairs_from(start, n)[k]).0 && pairs_from(start, n)[k].0 < pairs_from(
            start,
            n,
        )[k].1 < n by {
            if k >= row.len() {
                assert(pairs_from(start, n)[k] == pairs_from(start + 1, n)[k - row.len()]);
            }
        }
    }
}

/// Every pair the detection scan visits names two distinct bodies, first
/// index below second, both in range.
pub proof fn lemma_spec_pairs_bounds(n: int)
    ensures
        forall|k: int|
            0 <= k < spec_pairs(n).len() ==> 0 <= (#[trigger] spec_pairs(n)[k]).0 && spec_pairs(
                n,
            )[k].0 < spec_pairs(n)[k].1 < n,
{
    lemma_pairs_from_bounds(0, n);
}

/// Relies on itertools' `tuple_combinations` over the range `0..n`: it
/// yields every pair `(i, j)` with `i < j < n`, exactly once, in
/// lexicographic order - the order `spec_pairs` writes out.
#[verifier::external_body]
#[allow(deprecated)]
fn pair_indices(n: usize) -> (r: Vec<(usize, usize)>)
    ensures
        r@.len() == spec_pairs(n as int).len(),
        forall|k: int|
            0 <= k < r@.len() ==> (#[trigger] r@[k]).0 as int == spec_pairs(n as int)[k].0
                && r@[k].1 as int == spec_pairs(n as int)[k].1,
{
    (0..n).tuple_combinations().collect()
}

/// One detection pass over the pair `(i, j)`: the mutual candidate is
/// offered to both bodies' pending slots, the second body receiving the
/// mirror image.
pub open spec fn spec_detect_pair(
    bodies: Seq<RigidBody>,
    i: int,
    j: int,
    delta: Scalar,
) -> Seq<RigidBody> {
    let a = bodies[i];
    let b = bodies[j];
    let cand = spec_mutual_candidate(a, b, delta);
    let a2 = RigidBody {
        properties: a.properties,
        intersection: spec_set_intersection(a.intersection, cand),
    };
    let b2 = RigidBody {
        properties: b.properties,
        intersection: spec_set_intersection(b.intersection, spec_opt_invert(cand)),
    };
    bodies.update(i, a2).update(j, b2)
}

/// The detection phase: the pair passes folded over the body sequence in
/// order.
pub open spec fn spec_detect_all(
    bodies: Seq<RigidBody>,
    ps: Seq<(int, int)>,
    delta: Scalar,
) -> Seq<RigidBody>
    decreases ps.len(),
{
    if ps.len() == 0 {
        bodies
    } else {
        spec_detect_all(spec_detect_pair(bodies, ps[0].0, ps[0].1, delta), ps.drop_first(), delta)
    }
}

/// The integration phase: every body moved exactly once.
pub open spec fn spec_move_all(bodies: Seq<RigidBody>, delta: Scalar) -> Seq<RigidBody> {
    bodies.map_values(|b: RigidBody| spec_move_tick(b, delta))
}

/// One full step: detect over all pairs, then integrate every body.
pub open spec fn spec_tick(bodies: Seq<RigidBody>, delta: Scalar) -> Seq<RigidBody> {
    spec_move_all(spec_detect_all(bodies, spec_pairs(bodies.len() as int), delta), delta)
}

/// The simulation: owns the bodies, in insertion order.
pub struct Simulation {
    pub objects: Vec<RigidBody>,
}

impl Simulation {
    /// Every body is well-formed.
    pub open spec fn wf(self) -> bool {
        forall|k: int| 0 <= k < self.objects@.len() ==> (#[trigger] self.objects@[k]).wf()
    }

    /// An empty simulation.
    pub fn new() -> (r: Simulation)
        ensures
            r.objects@ == Seq::<RigidBody>::empty(),
            r.wf(),
    {
        Simulation { objects: Vec::new() }
    }

    /// Append a body; insertion order is the iteration and pairing
    /// order.
    pub fn spawn(&mut self, body: RigidBody)
        requires
            old(self).wf(),
            body.wf(),
        ensures
            final(self).objects@ == old(self).objects@.push(body),
            final(self).wf(),
    {
        self.objects.push(body);
    }

    /// A read-only view of the bodies, in insertion order.
    pub fn objects(&self) -> (r: &Vec<RigidBody>)
        ensures
            r == &self.objects,
    {
        &self.objects
    }

    /// Advance the simulation by one step of length `delta`: mutual
    /// detection over every unordered pair of distinct bodies, then one
    /// integration of every body.
    pub fn tick(&mut self, delta: Scalar)
        requires
            old(self).wf(),
        ensures
            final(self).objects@ == spec_tick(old(self).objects@, delta),
            final(self).wf(),
    {
        let n = self.objects.len();
        let pairs = pair_indices(n);
        let ghost all_pairs: Seq<(int, int)> = spec_pairs(n as int);
        let ghost orig: Seq<RigidBody> = self.objects@;
        proof {
            lemma_spec_pairs_bounds(n as int);
            assert(all_pairs.skip(0) =~= all_pairs);
        }

        let mut k: usize = 0;
        while k < pairs.len()
            invariant
                0 <= k <= pairs@.len(),
                pairs@.len() == all_pairs.len(),
                forall|kk: int|
                    0 <= kk < pairs@.len() ==> (#[trigger] pairs@[kk]).0 as int
                        == all_pairs[kk].0 && pairs@[kk].1 as int == all_pairs[kk].1,
                forall|kk: int|
                    0 <= kk < all_pairs.len() ==> 0 <= (#[trigger] all_pairs[kk]).0
                        && all_pairs[kk].0 < all_pairs[kk].1 < n as int,
                all_pairs == spec_pairs(n as int),
                self.objects@.len() == n as int,
                orig.len() == n as int,
                forall|l: int| 0 <= l < n as int ==> (#[trigger] self.objects@[l]).wf(),
                spec_detect_all(orig, all_pairs, delta) == spec_detect_all(
                    self.objects@,
                    all_pairs.skip(k as int),
                    delta,
                ),
            decreases pairs@.len() - k,
        {
            let ghost prev: Seq<RigidBody> = self.objects@;
            let p = pairs[k];
            let i = p.0;
            let j = p.1;
            let mut a = self.objects[i];
            let mut b = self.objects[j];
            a.intersect_tick(&mut b, delta);
            self.objects[i] = a;
            self.objects[j] = b;
            proof {
                assert(self.objects@ == spec_detect_pair(prev, i as int, j as int, delta));
                assert(all_pairs.skip(k as int)[0] == all_pairs[k as int]);
                assert(all_pairs.skip(k as int).drop_first() =~= all_pairs.skip(k as int + 1));
                assert(spec_detect_all(prev, all_pairs.skip(k as int), delta) == spec_detect_all(
                    self.objects@,
                    all_pairs.skip(k as int + 1),
                    delta,
                ));
            }
            k += 1;
        }
        proof {
            assert(all_pairs.skip(all_pairs.len() as int) =~= Seq::<(int, int)>::empty());
            assert(spec_detect_all(orig, all_pairs, delta) == self.objects@);
        }

        let ghost detected: Seq<RigidBody> = self.objects@;
        let mut idx: usize = 0;
        while idx < n
            invariant
                0 <= idx <= n,
                self.objects@.len() == n as int,
                detected.len() == n as int,
                forall|l: int| 0 <= l < n as int ==> (#[trigger] detected[l]).wf(),
                forall|l: int|
                    0 <= l < idx as int ==> self.objects@[l] == spec_move_tick(
                        detected[l],
                        delta,
                    ) && (#[trigger] self.objects@[l]).wf(),
                forall|l: int| idx as int <= l < n as int ==> self.objects@[l] == detected[l],
            decreases n - idx,
        {
            let mut body = self.objects[idx];
            body.move_tick(delta);
            self.objects[idx] = body;
            idx += 1;
        }
        proof {
            assert(self.objects@ =~= spec_move_all(detected, delta));
        }
    }
}

impl Default for Simulation {
    /// An empty simulation.
    fn default() -> (r: Simulation)
        ensures
            r.objects@ == Seq::<RigidBody>::empty(),
            r.wf(),
    {
        Simulation::new()
    }
}

} // verus!
