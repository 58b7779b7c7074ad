//! A standalone simulated-annealing planner over cut positions: pick a
//! cut move, shift it a step in a random feasible direction, rescore,
//! and accept worsenings with a temperature-driven probability.  It
//! stops when its wall-clock budget runs out.
use vstd::prelude::*;

use crate::ai::ChainedAI;
use crate::image::Image;
use crate::isl::{program_wf, Move, Point, Program};
use crate::render::{calc_score, spec_score};
use crate::rng::{gen_range_i32, gen_range_usize, new_rng};
use crate::state::State;

verus! {

#[verifier::external_type_specification]
#[verifier::external_body]
pub struct ExInstant(std::time::Instant);

/// Relies on std::time::Instant::now: a timestamp for measuring the
/// planner's wall-clock budget.  Nothing is promised of its value.
#[verifier::external_body]
pub fn instant_now() -> std::time::Instant {
    std::time::Instant::now()
}

/// Relies on Instant::elapsed and Duration::as_millis: how many
/// milliseconds passed since `start`, saturated to 64 bits.  The value
/// depends on the clock, so nothing is promised of it.
#[verifier::external_body]
pub fn elapsed_millis(start: &std::time::Instant) -> u64 {
    let m = start.elapsed().as_millis();
    if m > u64::MAX as u128 {
        u64::MAX
    } else {
        m as u64
    }
}

pub struct AnnealingAI {
    /// Wall-clock budget in milliseconds.
    pub time_limit_millis: u64,
}

impl ChainedAI for AnnealingAI {
    open spec fn valid_input(&self, image: &Image, initial_state: &State, program: &Program) -> bool {
        &&& image.wf()
        &&& initial_state@.wf()
        &&& program_wf(program@)
        &&& program@.len() <= 1000000
    }

    fn solve(&mut self, image: &Image, initial_state: &State, initial_program: &Program) -> (r:
        Program)
        ensures
            spec_score(initial_program@, image@, initial_state@) matches Some(s0) ==> (spec_score(
                r@,
                image@,
                initial_state@,
            ) matches Some(s) && s <= s0),
    {
        let mut rng = new_rng();
        let mut solution = initial_program.clone();
        let mut best_solution = initial_program.clone();
        let mut current_score = match calc_score(initial_program, image, initial_state) {
            Ok(s) => s,
            Err(_) => {
                return best_solution;
            },
        };
        let ghost s0 = current_score as int;
        let mut best_score = current_score;
        let start_at = instant_now();
        let n = solution.0.len();
        let limit: u64 = if self.time_limit_millis > 1000000000 {
            1000000000
        } else {
            self.time_limit_millis
        };
        let mut last_elapsed: u64 = 0;
        let mut iter: usize = 0;
        while iter < 100000000
            invariant
                image.wf(),
                initial_state@.wf(),
                program_wf(solution@),
                program_wf(best_solution@),
                solution@.len() == n,
                n <= 1000000,
                0 <= current_score,
                spec_score(solution@, image@, initial_state@) == Some(current_score as int),
                spec_score(best_solution@, image@, initial_state@) == Some(best_score as int),
                best_score as int <= s0,
                0 < limit <= 1000000000 || limit == 0,
                limit <= 1000000000,
                last_elapsed <= limit,
            decreases 100000000 - iter,
        {
            iter = iter + 1;
            if iter % 100 == 0 {
                let e = elapsed_millis(&start_at);
                if e >= limit {
                    break ;
                }
                last_elapsed = e;
            }
            // candidate cut moves
            let mut candidates: Vec<usize> = Vec::new();
            let mut i: usize = 0;
            while i < n
                invariant
                    i <= n,
                    solution@.len() == n,
                    solution.0@.len() == n,
                    forall|k: int| 0 <= k < candidates@.len() ==> (#[trigger] candidates@[k]) < n,
                decreases n - i,
            {
                match &solution.0[i] {
                    Move::LCut { .. } => candidates.push(i),
                    Move::PCut { .. } => candidates.push(i),
                    _ => {},
                }
                i = i + 1;
            }
            if candidates.len() == 0 {
                break ;
            }
            let i_chosen = candidates[gen_range_usize(&mut rng, 0, candidates.len())];
            let old_move = solution.0[i_chosen].clone();
            proof {
                assert(solution@[i_chosen as int] == solution.0@[i_chosen as int]@);
                assert(solution@[i_chosen as int].wf());
            }
            let delta: i32 = 5;
            let modified: Move = match &old_move {
                Move::LCut { block_id, orientation, line_number } => {
                    if *line_number < -1000000 || *line_number > 1000000 {
                        continue ;
                    }
                    let next = if gen_range_usize(&mut rng, 0, 2) == 0 {
                        *line_number + delta
                    } else {
                        *line_number - delta
                    };
                    Move::LCut {
                        block_id: crate::isl::BlockId::new(block_id.0.as_slice()),
                        orientation: *orientation,
                        line_number: next,
                    }
                },
                Move::PCut { block_id, point } => {
                    if point.x < -1000000 || point.x > 1000000 || point.y < -1000000 || point.y
                        > 1000000 {
                        continue ;
                    }
                    let dx = gen_range_i32(&mut rng, -1, 2);
                    let dy = gen_range_i32(&mut rng, -1, 2);
                    if dx == 0 && dy == 0 {
                        continue ;
                    }
                    Move::PCut {
                        block_id: crate::isl::BlockId::new(block_id.0.as_slice()),
                        point: Point::new(point.x + dx * delta, point.y + dy * delta),
                    }
                },
                _ => {
                    continue ;
                },
            };
            let ghost before = solution@;
            solution.0.set(i_chosen, modified);
            proof {
                assert forall|k: int| 0 <= k < solution@.len() implies (
                #[trigger] solution@[k]).wf() by {
                    assert(solution@[k] == solution.0@[k]@);
                    if k != i_chosen {
                        assert(solution@[k] == before[k]);
                    }
                }
            }
            let new_score = match calc_score(&solution, image, initial_state) {
                Ok(s) => s,
                Err(_) => {
                    solution.0.set(i_chosen, old_move);
                    proof {
                        assert(solution@ =~= before);
                    }
                    continue ;
                },
            };
            // accept improvements; accept worsenings with the
            // Metropolis rule under a decaying temperature
            let accept = if new_score < current_score {
                true
            } else {
                let t_fp = if limit == 0 {
                    0u128
                } else {
                    crate::refine_ai::temperature_fp(
                        100000,
                        last_elapsed as usize,
                        limit as usize,
                    )
                };
                let diff = new_score - current_score;
                let delta = if diff > 1000000000000i64 {
                    1000000000000i64
                } else {
                    diff
                };
                crate::refine_ai::anneal_accept(&mut rng, delta, t_fp)
            };
            if accept {
                current_score = new_score;
            } else {
                solution.0.set(i_chosen, old_move);
                proof {
                    assert(solution@ =~= before);
                }
            }
            if current_score < best_score {
                best_score = current_score;
                best_solution = solution.clone();
            }
        }
        best_solution
    }
}

} // verus!
