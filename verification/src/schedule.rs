//! When the search stagnates: the count of iterations in a row that found no
//! shorter tour, when alpha and beta are rescaled, and when the pheromones
//! are reset.

use vstd::prelude::*;

verus! {

/// What an iteration leaves: the count of iterations in a row without
/// improvement, whether alpha and beta are rescaled at its end, and whether
/// the pheromones are reset.
pub struct StagnationStep {
    pub counter: usize,
    pub rescale: bool,
    pub reset: bool,
}

/// After an iteration that did not improve the best tour, whether alpha has
/// fallen to half its initial value: `alpha_halved` tells it for alpha as it
/// is, `alpha_halved_if_rescaled` for alpha once rescaled, and which one
/// counts depends on whether the iteration rescales.
pub open spec fn alpha_halved_after(
    counter: usize,
    improved: bool,
    alpha_halved: bool,
    alpha_halved_if_rescaled: bool,
    number_of_iterations: usize,
) -> bool {
    !improved && if counter + 1 >= number_of_iterations / 10 {
        alpha_halved_if_rescaled
    } else {
        alpha_halved
    }
}

/// The reset test would take one from a tenth of the number of iterations
/// that is 0: alpha has halved after an iteration without improvement, and
/// there are fewer than 10 iterations.
pub open spec fn reset_test_underflows(
    counter: usize,
    improved: bool,
    alpha_halved: bool,
    alpha_halved_if_rescaled: bool,
    number_of_iterations: usize,
) -> bool {
    alpha_halved_after(counter, improved, alpha_halved, alpha_halved_if_rescaled, number_of_iterations)
        && number_of_iterations < 10
}

/// After an iteration that improved the best tour the count starts again at
/// 0 and nothing else happens. Otherwise the count grows by one, and once it
/// reaches a tenth of the number of iterations (rounded down), alpha and beta
/// are rescaled and the count starts again at 0. Then, if alpha (rescaled or
/// not) has fallen to half its initial value and the count is at least a
/// tenth of the number of iterations less one, the pheromones are reset.
pub open spec fn step_spec(
    counter: usize,
    improved: bool,
    alpha_halved: bool,
    alpha_halved_if_rescaled: bool,
    number_of_iterations: usize,
) -> StagnationStep {
    if improved {
        StagnationStep { counter: 0, rescale: false, reset: false }
    } else if counter + 1 >= number_of_iterations / 10 {
        StagnationStep {
            counter: 0,
            rescale: true,
            reset: alpha_halved_if_rescaled && 0 >= number_of_iterations / 10 - 1,
        }
    } else {
        StagnationStep {
            counter: (counter + 1) as usize,
            rescale: false,
            reset: alpha_halved && counter + 1 >= number_of_iterations / 10 - 1,
        }
    }
}

/// Whether the reset test of an iteration would underflow (see
/// `reset_test_underflows`); the search fails there.
pub fn reset_test_would_underflow(
    counter: usize,
    improved: bool,
    alpha_halved: bool,
    alpha_halved_if_rescaled: bool,
    number_of_iterations: usize,
) -> (b: bool)
    ensures
        b == reset_test_underflows(
            counter,
            improved,
            alpha_halved,
            alpha_halved_if_rescaled,
            number_of_iterations,
        ),
{
    if improved || number_of_iterations >= 10 {
        false
    } else {
        // with fewer than 10 iterations every iteration without improvement rescales
        alpha_halved_if_rescaled
    }
}

/// The count, the rescaling and the reset after one iteration (see
/// `step_spec`).
pub fn stagnation_step(
    counter: usize,
    improved: bool,
    alpha_halved: bool,
    alpha_halved_if_rescaled: bool,
    number_of_iterations: usize,
) -> (s: StagnationStep)
    requires
        improved || counter < usize::MAX,
        !reset_test_underflows(
            counter,
            improved,
            alpha_halved,
            alpha_halved_if_rescaled,
            number_of_iterations,
        ),
    ensures
        s == step_spec(
            counter,
            improved,
            alpha_halved,
            alpha_halved_if_rescaled,
            number_of_iterations,
        ),
{
    if improved {
        StagnationStep { counter: 0, rescale: false, reset: false }
    } else {
        let c = counter + 1;
        if c >= number_of_iterations / 10 {
            let reset = alpha_halved_if_rescaled && pheromone_reset_due(0, number_of_iterations);
            StagnationStep { counter: 0, rescale: true, reset }
        } else {
            let reset = alpha_halved && pheromone_reset_due(c, number_of_iterations);
            StagnationStep { counter: c, rescale: false, reset }
        }
    }
}

/// Whether the count, after an iteration without improvement, calls for a
/// reset of the pheromones (once alpha has fallen to half its initial value):
/// the count is at least a tenth of the number of iterations, less one.
pub fn pheromone_reset_due(counter: usize, number_of_iterations: usize) -> (b: bool)
    requires
        number_of_iterations >= 10,
    ensures
        b == (counter >= number_of_iterations / 10 - 1),
{
    counter >= number_of_iterations / 10 - 1
}

/// The state after `k` iterations in a row without improvement, from a count
/// of 0.
pub open spec fn idle_run(k: nat, number_of_iterations: usize) -> StagnationStep
    decreases k,
{
    if k == 0 {
        StagnationStep { counter: 0, rescale: false, reset: false }
    } else {
        step_spec(
            idle_run((k - 1) as nat, number_of_iterations).counter,
            false,
            false,
            false,
            number_of_iterations,
        )
    }
}

/// The count stays below a tenth of the number of iterations (or at 0 when
/// that tenth is 0).
pub proof fn lemma_counter_stays_bounded(
    counter: usize,
    improved: bool,
    alpha_halved: bool,
    alpha_halved_if_rescaled: bool,
    number_of_iterations: usize,
)
    requires
        counter == 0 || counter < number_of_iterations / 10,
    ensures
        ({
            let s = step_spec(
                counter,
                improved,
                alpha_halved,
                alpha_halved_if_rescaled,
                number_of_iterations,
            );
            s.counter == 0 || s.counter < number_of_iterations / 10
        }),
{
}

/// The pheromones are reset only after an iteration that did not improve the
/// best tour, and only once alpha (as it stands after any rescaling) has
/// fallen to half its initial value.
pub proof fn lemma_reset_only_when_stagnating(
    counter: usize,
    improved: bool,
    alpha_halved: bool,
    alpha_halved_if_rescaled: bool,
    number_of_iterations: usize,
)
    ensures
        step_spec(
            counter,
            improved,
            alpha_halved,
            alpha_halved_if_rescaled,
            number_of_iterations,
        ).reset ==> alpha_halved_after(
            counter,
            improved,
            alpha_halved,
            alpha_halved_if_rescaled,
            number_of_iterations,
        ),
{
}

/// From a count of 0, alpha and beta are rescaled after exactly a tenth of
/// the number of iterations in a row without improvement (after every such
/// iteration when that tenth is 0 or 1), and not before; while alpha has not
/// halved, the pheromones are not reset.
pub proof fn lemma_rescale_after_patience(k: nat, number_of_iterations: usize)
    requires
        1 <= k,
        k <= number_of_iterations / 10 || (number_of_iterations / 10 <= 1 && k == 1),
    ensures
        k < number_of_iterations / 10 ==> idle_run(k, number_of_iterations) == (StagnationStep {
            counter: k as usize,
            rescale: false,
            reset: false,
        }),
        k >= number_of_iterations / 10 ==> idle_run(k, number_of_iterations) == (StagnationStep {
            counter: 0,
            rescale: true,
            reset: false,
        }),
    decreases k,
{
    if k > 1 {
        lemma_rescale_after_patience((k - 1) as nat, number_of_iterations);
        assert(idle_run((k - 1) as nat, number_of_iterations).counter == k - 1);
    } else {
        assert(idle_run(0, number_of_iterations).counter == 0);
    }
    assert(idle_run(k, number_of_iterations) == step_spec(
        idle_run((k - 1) as nat, number_of_iterations).counter,
        false,
        false,
        false,
        number_of_iterations,
    ));
}

} // verus!
