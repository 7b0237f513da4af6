//! The bounce loop of the path tracer: a ray is followed from surface to
//! surface until it escapes, is absorbed, reaches a light, or has bounced
//! as often as the depth cap allows.
//!
//! What happens at each hit (the intersection, the material's event, the new
//! direction) is handed in as a closure, so the loop is generic over the ray
//! and radiance types.
use vstd::prelude::*;

verus! {

/// The last bounce level that is still traced; a path that would go deeper
/// contributes nothing.
pub const MAX_LEVEL: usize = 7;

/// What one bounce does with a ray.
pub enum Bounce<R, T> {
    /// No surface ahead: the ray leaves the scene.
    Escape,
    /// The surface absorbs the ray.
    Decay,
    /// The ray reached a light of this radiance.
    Emission(T),
    /// The ray goes on as this new ray.
    Scatter(R),
}

/// `steps` is what `bounce` can do to a path from `start`: each step is
/// `bounce` of the ray the previous one scattered into; all steps but the
/// last scatter; the path ends at its first non-scattering step or after
/// `MAX_LEVEL + 1` steps.
pub open spec fn is_path<R, T, F: Fn(R) -> Bounce<R, T>>(
    bounce: F,
    start: R,
    steps: Seq<Bounce<R, T>>,
) -> bool {
    &&& 1 <= steps.len() <= MAX_LEVEL + 1
    &&& bounce.ensures((start,), steps[0])
    &&& forall|k: int|
        0 <= k < steps.len() - 1 ==> (#[trigger] steps[k] is Scatter) && bounce.ensures(
            (steps[k]->Scatter_0,),
            steps[k + 1],
        )
    &&& steps.len() < MAX_LEVEL + 1 ==> !(steps.last() is Scatter)
}

/// The radiance a path carries back: the light it reached, or `zero`.
pub open spec fn path_value<R, T>(steps: Seq<Bounce<R, T>>, zero: T) -> T {
    match steps.last() {
        Bounce::Emission(t) => t,
        _ => zero,
    }
}

/// Follows `ray` through at most `MAX_LEVEL + 1` bounces and returns the
/// radiance of the light it reaches, or `zero` when it escapes, is absorbed,
/// or is still scattering after the last level.
pub fn trace_path<R, T, F: Fn(R) -> Bounce<R, T>>(ray: R, bounce: F, zero: T) -> (r: T)
    requires
        forall|x: R| #[trigger] bounce.requires((x,)),
    ensures
        exists|steps: Seq<Bounce<R, T>>|
            #[trigger] is_path(bounce, ray, steps) && r == path_value(steps, zero),
{
    let ghost start = ray;
    let mut cur = ray;
    let mut level: usize = 0;
    let mut steps: Ghost<Seq<Bounce<R, T>>> = Ghost(Seq::empty());
    while level <= MAX_LEVEL
        invariant
            level <= MAX_LEVEL + 1,
            start == ray,
            steps@.len() == level,
            forall|x: R| #[trigger] bounce.requires((x,)),
            level == 0 ==> cur == start,
            level > 0 ==> steps@.last() is Scatter && steps@.last()->Scatter_0 == cur,
            level > 0 ==> bounce.ensures((start,), steps@[0]),
            forall|k: int|
                0 <= k < steps@.len() - 1 ==> (#[trigger] steps@[k] is Scatter) && bounce.ensures(
                    (steps@[k]->Scatter_0,),
                    steps@[k + 1],
                ),
        decreases MAX_LEVEL + 1 - level,
    {
        let ghost at = cur;
        let ghost before = steps@;
        let step = bounce(cur);
        proof {
            steps@ = steps@.push(step);
            assert(bounce.ensures((at,), step));
            assert forall|k: int| 0 <= k < steps@.len() - 1 implies (#[trigger] steps@[k] is Scatter)
                && bounce.ensures((steps@[k]->Scatter_0,), steps@[k + 1]) by {
                if k < before.len() - 1 {
                    assert(steps@[k] == before[k]);
                    assert(steps@[k + 1] == before[k + 1]);
                } else {
                    assert(steps@[k] == before.last());
                }
            }
        }
        match step {
            Bounce::Escape => {
                assert(is_path(bounce, start, steps@));
                return zero;
            },
            Bounce::Decay => {
                assert(is_path(bounce, start, steps@));
                return zero;
            },
            Bounce::Emission(t) => {
                assert(is_path(bounce, start, steps@));
                return t;
            },
            Bounce::Scatter(next) => {
                cur = next;
            },
        }
        level = level + 1;
    }
    assert(is_path(bounce, start, steps@));
    zero
}

} // verus!
