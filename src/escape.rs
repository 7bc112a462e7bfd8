//! The escape-time loop: iterate a step from a start value until the step
//! reports that the orbit has left the bounding circle, or a limit is hit.

use vstd::prelude::*;

verus! {

/// `orbit` and `escaped` record a run of `step` from `start`: each step
/// takes `orbit[k]` to `orbit[k + 1]` and reports `escaped[k]`.
pub open spec fn is_run<Z, F: Fn(Z) -> (Z, bool)>(step: F, start: Z, orbit: Seq<Z>, escaped: Seq<bool>) -> bool {
    &&& orbit.len() == escaped.len() + 1
    &&& orbit[0] == start
    &&& forall|k: int| 0 <= k < escaped.len() ==> call_ensures(step, (orbit[k],), (orbit[k + 1], #[trigger] escaped[k]))
}

/// A run of `step` from `start` in which the first `n` steps stay inside.
pub open spec fn stays_for<Z, F: Fn(Z) -> (Z, bool)>(step: F, start: Z, n: int) -> bool {
    exists|orbit: Seq<Z>, escaped: Seq<bool>|
        is_run(step, start, orbit, escaped) && escaped.len() == n
            && forall|k: int| 0 <= k < n ==> !#[trigger] escaped[k]
}

/// A run of `step` from `start` that first escapes on step `i` (0-based).
pub open spec fn first_escapes_at<Z, F: Fn(Z) -> (Z, bool)>(step: F, start: Z, i: int) -> bool {
    exists|orbit: Seq<Z>, escaped: Seq<bool>|
        is_run(step, start, orbit, escaped) && escaped.len() == i + 1 && escaped[i]
            && forall|k: int| 0 <= k < i ==> !#[trigger] escaped[k]
}

/// Iterates `step` from `start` at most `limit` times. `Some(i)` when step
/// `i` (0-based) is the first to report an escape; `None` when none of the
/// `limit` steps does.
pub fn first_escape<Z, F: Fn(Z) -> (Z, bool)>(start: Z, limit: u32, step: &F) -> (r: Option<u32>)
    requires
        forall|z: Z| call_requires(*step, (z,)),
    ensures
        match r {
            Some(i) => i < limit && first_escapes_at(*step, start, i as int),
            None => stays_for(*step, start, limit as int),
        },
{
    let ghost orbit: Seq<Z> = seq![start];
    let ghost escaped: Seq<bool> = Seq::empty();
    let mut z = start;
    let mut i: u32 = 0;
    while i < limit
        invariant
            forall|z: Z| call_requires(*step, (z,)),
            i <= limit,
            is_run(*step, start, orbit, escaped),
            escaped.len() == i,
            orbit.last() == z,
            forall|k: int| 0 <= k < i ==> !#[trigger] escaped[k],
        decreases limit - i,
    {
        let (next, out) = step(z);
        proof {
            let o2 = orbit.push(next);
            let e2 = escaped.push(out);
            assert forall|k: int| 0 <= k < e2.len() implies call_ensures(*step, (o2[k],), (o2[k + 1], #[trigger] e2[k])) by {
                if k < escaped.len() {
                    assert(escaped[k] == e2[k]);
                }
            }
            orbit = o2;
            escaped = e2;
        }
        if out {
            assert(is_run(*step, start, orbit, escaped) && escaped.len() == i + 1 && escaped[i as int]);
            return Some(i);
        }
        z = next;
        i = i + 1;
    }
    assert(is_run(*step, start, orbit, escaped) && escaped.len() == limit);
    None
}

} // verus!
