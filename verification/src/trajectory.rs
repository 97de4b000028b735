//! A system-agnostic trajectory engine: drive a state forward by a caller's
//! one-step transition function a fixed number of times, recording the state
//! before each step.

use vstd::prelude::*;

verus! {

/// `t` is the trajectory of length `steps` that starts at `init` and follows
/// the one-step transition function `step`: entry 0 is the initial state and
/// each later entry is the step applied to the one before it. The state after
/// the last step is not recorded.
pub open spec fn is_trajectory<T>(t: Seq<T>, init: T, step: spec_fn(T) -> T, steps: nat) -> bool {
    &&& t.len() == steps
    &&& steps > 0 ==> t[0] == init
    &&& forall|i: int| 0 <= i < steps - 1 ==> t[i + 1] == #[trigger] step(t[i])
}

/// Record `steps` states, starting from `init`: each entry of the result is
/// the state before one application of `step`, so entry 0 is `init` and every
/// later entry is an output of `step` on the entry before it.
pub fn simulate_trajectory<T: Copy, F: Fn(T) -> T>(init: T, step: F, steps: usize) -> (t: Vec<T>)
    requires
        forall|s: T| #[trigger] call_requires(step, (s,)),
    ensures
        t@.len() == steps,
        steps > 0 ==> t@[0] == init,
        forall|i: int| 0 <= i < steps - 1 ==> #[trigger] call_ensures(step, (t@[i],), t@[i + 1]),
{
    let mut t: Vec<T> = Vec::new();
    let mut state: T = init;
    for k in 0..steps
        invariant
            forall|s: T| #[trigger] call_requires(step, (s,)),
            t@.len() == k,
            k > 0 ==> t@[0] == init,
            k == 0 ==> state == init,
            k > 0 ==> call_ensures(step, (t@[k - 1],), state),
            forall|i: int| 0 <= i < k - 1 ==> #[trigger] call_ensures(step, (t@[i],), t@[i + 1]),
    {
        t.push(state);
        state = step(state);
    }
    t
}

/// Split a recorded trajectory of three-coordinate states into one sequence
/// per coordinate, in recording order.
pub fn unzip3<A: Copy, B: Copy, C: Copy>(entries: &Vec<(A, B, C)>) -> (r: (Vec<A>, Vec<B>, Vec<C>))
    ensures
        r.0@.len() == entries@.len(),
        r.1@.len() == entries@.len(),
        r.2@.len() == entries@.len(),
        forall|i: int| 0 <= i < entries@.len() ==> r.0@[i] == #[trigger] entries@[i].0,
        forall|i: int| 0 <= i < entries@.len() ==> r.1@[i] == #[trigger] entries@[i].1,
        forall|i: int| 0 <= i < entries@.len() ==> r.2@[i] == #[trigger] entries@[i].2,
{
    let mut firsts: Vec<A> = Vec::new();
    let mut seconds: Vec<B> = Vec::new();
    let mut thirds: Vec<C> = Vec::new();
    let n = entries.len();
    for k in 0..n
        invariant
            n == entries@.len(),
            firsts@.len() == k,
            seconds@.len() == k,
            thirds@.len() == k,
            forall|i: int| 0 <= i < k ==> firsts@[i] == #[trigger] entries@[i].0,
            forall|i: int| 0 <= i < k ==> seconds@[i] == #[trigger] entries@[i].1,
            forall|i: int| 0 <= i < k ==> thirds@[i] == #[trigger] entries@[i].2,
    {
        let (a, b, c) = entries[k];
        firsts.push(a);
        seconds.push(b);
        thirds.push(c);
    }
    (firsts, seconds, thirds)
}

/// Split a recorded trajectory of four-coordinate states into one sequence
/// per coordinate, in recording order.
pub fn unzip4<A: Copy, B: Copy, C: Copy, D: Copy>(entries: &Vec<(A, B, C, D)>) -> (r: (
    Vec<A>,
    Vec<B>,
    Vec<C>,
    Vec<D>,
))
    ensures
        r.0@.len() == entries@.len(),
        r.1@.len() == entries@.len(),
        r.2@.len() == entries@.len(),
        r.3@.len() == entries@.len(),
        forall|i: int| 0 <= i < entries@.len() ==> r.0@[i] == #[trigger] entries@[i].0,
        forall|i: int| 0 <= i < entries@.len() ==> r.1@[i] == #[trigger] entries@[i].1,
        forall|i: int| 0 <= i < entries@.len() ==> r.2@[i] == #[trigger] entries@[i].2,
        forall|i: int| 0 <= i < entries@.len() ==> r.3@[i] == #[trigger] entries@[i].3,
{
    let mut firsts: Vec<A> = Vec::new();
    let mut seconds: Vec<B> = Vec::new();
    let mut thirds: Vec<C> = Vec::new();
    let mut fourths: Vec<D> = Vec::new();
    let n = entries.len();
    for k in 0..n
        invariant
            n == entries@.len(),
            firsts@.len() == k,
            seconds@.len() == k,
            thirds@.len() == k,
            fourths@.len() == k,
            forall|i: int| 0 <= i < k ==> firsts@[i] == #[trigger] entries@[i].0,
            forall|i: int| 0 <= i < k ==> seconds@[i] == #[trigger] entries@[i].1,
            forall|i: int| 0 <= i < k ==> thirds@[i] == #[trigger] entries@[i].2,
            forall|i: int| 0 <= i < k ==> fourths@[i] == #[trigger] entries@[i].3,
    {
        let (a, b, c, d) = entries[k];
        firsts.push(a);
        seconds.push(b);
        thirds.push(c);
        fourths.push(d);
    }
    (firsts, seconds, thirds, fourths)
}

/// The position of the first entry that the given test flagged, if any: at
/// every earlier position the test returned false, and at the reported one
/// it returned true. Callers use it to report the step at which a trajectory
/// first degenerated.
pub fn first_index_where<T: Copy, F: Fn(T) -> bool>(entries: &Vec<T>, test: F) -> (r: Option<
    usize,
>)
    requires
        forall|s: T| #[trigger] call_requires(test, (s,)),
    ensures
        match r {
            Some(i) => i < entries@.len() && call_ensures(test, (entries@[i as int],), true)
                && forall|j: int| 0 <= j < i ==> #[trigger] call_ensures(test, (entries@[j],), false),
            None => forall|j: int|
                0 <= j < entries@.len() ==> #[trigger] call_ensures(test, (entries@[j],), false),
        },
{
    let n = entries.len();
    for k in 0..n
        invariant
            forall|s: T| #[trigger] call_requires(test, (s,)),
            n == entries@.len(),
            forall|j: int| 0 <= j < k ==> #[trigger] call_ensures(test, (entries@[j],), false),
    {
        let entry = entries[k];
        if test(entry) {
            return Some(k);
        }
    }
    None
}

/// A recorded sequence whose consecutive entries are linked by `can_step` is
/// the trajectory of `next` whenever `can_step` admits no result other than
/// `next`'s. This turns the entry-by-entry guarantee of
/// `simulate_trajectory` into `is_trajectory` for any deterministic
/// transition function.
pub proof fn lemma_trajectory_from_steps<T>(
    t: Seq<T>,
    init: T,
    next: spec_fn(T) -> T,
    can_step: spec_fn(T, T) -> bool,
    steps: nat,
)
    requires
        t.len() == steps,
        steps > 0 ==> t[0] == init,
        forall|i: int| 0 <= i < steps - 1 ==> #[trigger] can_step(t[i], t[i + 1]),
        forall|s: T, r: T| #[trigger] can_step(s, r) ==> r == next(s),
    ensures
        is_trajectory(t, init, next, steps),
{
    assert forall|i: int| 0 <= i < steps - 1 implies t[i + 1] == #[trigger] next(t[i]) by {
        assert(can_step(t[i], t[i + 1]));
    }
}

/// Entry `i` of a trajectory is determined by the initial state and the
/// transition function alone.
proof fn lemma_trajectory_entry_unique<T>(
    t1: Seq<T>,
    t2: Seq<T>,
    init: T,
    step: spec_fn(T) -> T,
    steps: nat,
    i: int,
)
    requires
        is_trajectory(t1, init, step, steps),
        is_trajectory(t2, init, step, steps),
        0 <= i < steps,
    ensures
        t1[i] == t2[i],
    decreases i,
{
    if i > 0 {
        lemma_trajectory_entry_unique(t1, t2, init, step, steps, i - 1);
        assert(t1[i] == step(t1[i - 1]));
        assert(t2[i] == step(t2[i - 1]));
    }
}

/// Determinism: two trajectories of the same transition function from the
/// same initial state over the same number of steps are equal entry by entry.
pub proof fn lemma_trajectory_deterministic<T>(
    t1: Seq<T>,
    t2: Seq<T>,
    init: T,
    step: spec_fn(T) -> T,
    steps: nat,
)
    requires
        is_trajectory(t1, init, step, steps),
        is_trajectory(t2, init, step, steps),
    ensures
        t1 == t2,
{
    assert forall|i: int| 0 <= i < steps implies t1[i] == t2[i] by {
        lemma_trajectory_entry_unique(t1, t2, init, step, steps, i);
    }
    assert(t1 =~= t2);
}

/// Up to entry `i`, a trajectory that starts at a fixed point of the
/// transition function never leaves it.
proof fn lemma_trajectory_entry_fixed<T>(
    t: Seq<T>,
    init: T,
    step: spec_fn(T) -> T,
    steps: nat,
    i: int,
)
    requires
        is_trajectory(t, init, step, steps),
        step(init) == init,
        0 <= i < steps,
    ensures
        t[i] == init,
    decreases i,
{
    if i > 0 {
        lemma_trajectory_entry_fixed(t, init, step, steps, i - 1);
        assert(t[i] == step(t[i - 1]));
    }
}

/// A fixed point of the transition function is held for the whole
/// trajectory: every recorded entry equals the initial state.
pub proof fn lemma_trajectory_fixed_point<T>(
    t: Seq<T>,
    init: T,
    step: spec_fn(T) -> T,
    steps: nat,
)
    requires
        is_trajectory(t, init, step, steps),
        step(init) == init,
    ensures
        forall|i: int| 0 <= i < steps ==> t[i] == init,
{
    assert forall|i: int| 0 <= i < steps implies t[i] == init by {
        lemma_trajectory_entry_fixed(t, init, step, steps, i);
    }
}

/// Under a transition function that changes no state at all — as a zero time
/// increment makes one — every recorded entry equals the initial state,
/// whatever that state is and however many steps are taken.
pub proof fn lemma_trajectory_identity_step<T>(
    t: Seq<T>,
    init: T,
    step: spec_fn(T) -> T,
    steps: nat,
)
    requires
        is_trajectory(t, init, step, steps),
        forall|s: T| #[trigger] step(s) == s,
    ensures
        forall|i: int| 0 <= i < steps ==> t[i] == init,
{
    lemma_trajectory_fixed_point(t, init, step, steps);
}

} // verus!

