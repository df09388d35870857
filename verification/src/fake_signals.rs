//! Simulated sensor signals for running without the hardware: the wheel
//! fires on every tick, the roller once every `SCALE_ROLLER` ticks.
use vstd::prelude::*;

verus! {

/// Wheel ticks per roller signal.
pub const SCALE_ROLLER: usize = 20;

/// The tick counter of the simulation before its first tick.
pub const FIRST_TICK: usize = 1;

/// One tick of the simulation, from the tick counter `i`: the wheel fires,
/// and the roller fires too where `i` has reached `SCALE_ROLLER`. Returns the
/// next counter and whether the roller fired.
pub fn fake_tick(i: usize) -> (res: (usize, bool))
    requires
        FIRST_TICK <= i <= SCALE_ROLLER,
    ensures
        res.1 == (i == SCALE_ROLLER),
        res.0 == if i == SCALE_ROLLER {
            FIRST_TICK
        } else {
            (i + 1) as usize
        },
        FIRST_TICK <= res.0 <= SCALE_ROLLER,
{
    let mut next = i;
    let mut roller = false;
    if next == SCALE_ROLLER {
        roller = true;
        next = 0;
    }
    next += 1;
    (next, roller)
}

/// The tick counter after `k` ticks from the start.
pub open spec fn counter_after(k: nat) -> int
    decreases k,
{
    if k == 0 {
        FIRST_TICK as int
    } else {
        let prev = counter_after((k - 1) as nat);
        if prev == SCALE_ROLLER {
            FIRST_TICK as int
        } else {
            prev + 1
        }
    }
}

/// The roller fires on the `k`-th tick (counting from one) exactly when `k`
/// is a multiple of `SCALE_ROLLER`: once every `SCALE_ROLLER` wheel signals.
pub proof fn lemma_roller_every_scale(k: nat)
    ensures
        counter_after(k) == (k % (SCALE_ROLLER as nat)) + 1,
        (counter_after(k) == SCALE_ROLLER) == ((k + 1) % (SCALE_ROLLER as nat) == 0),
    decreases k,
{
    if k > 0 {
        lemma_roller_every_scale((k - 1) as nat);
    }
}

} // verus!
