//! The pipeline driver's verified core: which planners a planner list
//! names, and the composition of a head planner with chained refiners.
//! Reading the image and configuration and writing the results stay
//! with the host program.
use vstd::prelude::*;
use vstd::string::StringSliceAdditionalSpecFns;

use crate::ai::{ChainedAI, HeadAI};
use crate::annealing_ai::AnnealingAI;
use crate::change_color_ai::ChangeColorAI;
use crate::cross_ai::CrossAI;
use crate::dp_ai::DpAI;
use crate::image::Image;
use crate::isl::{program_wf, MoveView, Program};
use crate::refine_ai::{OptimizeAlgorithm, RefineAi};
use crate::state::State;
use crate::swap_ai::SwapAI;
use crate::ai::{GridAI, OneColorAI};

verus! {

/// A head planner a list can name.
#[derive(Clone, Copy, Debug, PartialEq, Eq, Structural)]
pub enum HeadKind {
    OneColor,
    Grid,
    Cross,
    Dp,
    ChangeColor,
    Swap,
}

/// A chained planner a list can name.
#[derive(Clone, Copy, Debug, PartialEq, Eq, Structural)]
pub enum ChainKind {
    Refine,
    Annealing,
}

/// Tunable knobs the host hands the planners.
#[derive(Clone, Copy, Debug)]
pub struct PlannerOptions {
    pub refine_iters: usize,
    pub refine_algorithm: OptimizeAlgorithm,
    pub refine_initial_temperature_milli: u64,
    pub refine_dp_divide_max: usize,
    pub annealing_millis: u64,
    pub dp_divide_num: usize,
    pub dp_color_num: usize,
}

impl PlannerOptions {
    /// Knobs within the ranges the planners accept.
    pub open spec fn wf(self) -> bool {
        &&& self.refine_iters <= 100000000
        &&& 4 <= self.refine_dp_divide_max <= 16
        &&& self.refine_initial_temperature_milli <= 1000000
        &&& 2 <= self.dp_divide_num <= 16
        &&& 1 <= self.dp_color_num <= 16
    }
}

/// Whether two byte strings are equal.
fn bytes_eq(a: &[u8], b: &[u8]) -> (r: bool)
    ensures
        r == (a@ == b@),
{
    if a.len() != b.len() {
        proof {
            assert(a@.len() != b@.len());
        }
        return false;
    }
    let mut i: usize = 0;
    while i < a.len()
        invariant
            i <= a@.len(),
            a@.len() == b@.len(),
            forall|j: int| 0 <= j < i ==> a@[j] == b@[j],
        decreases a@.len() - i,
    {
        if a[i] != b[i] {
            return false;
        }
        i = i + 1;
    }
    proof {
        assert(a@ =~= b@);
    }
    true
}

/// The head planner a byte string names.
pub open spec fn spec_head_kind(bytes: Seq<u8>) -> Option<HeadKind> {
    if bytes == "OneColor".spec_bytes() {
        Some(HeadKind::OneColor)
    } else if bytes == "Grid".spec_bytes() {
        Some(HeadKind::Grid)
    } else if bytes == "Cross".spec_bytes() {
        Some(HeadKind::Cross)
    } else if bytes == "DP".spec_bytes() {
        Some(HeadKind::Dp)
    } else if bytes == "ChangeColor".spec_bytes() {
        Some(HeadKind::ChangeColor)
    } else if bytes == "Swap".spec_bytes() {
        Some(HeadKind::Swap)
    } else {
        None
    }
}

/// The chained planner a byte string names.
pub open spec fn spec_chain_kind(bytes: Seq<u8>) -> Option<ChainKind> {
    if bytes == "Refine".spec_bytes() {
        Some(ChainKind::Refine)
    } else if bytes == "Annealing".spec_bytes() {
        Some(ChainKind::Annealing)
    } else {
        None
    }
}

/// The head planner a name denotes, if any.
pub fn head_kind_of(name: &str) -> (r: Option<HeadKind>)
    ensures
        r == spec_head_kind(name.spec_bytes()),
{
    let nb = name.as_bytes();
    if bytes_eq(nb, "OneColor".as_bytes()) {
        Some(HeadKind::OneColor)
    } else if bytes_eq(nb, "Grid".as_bytes()) {
        Some(HeadKind::Grid)
    } else if bytes_eq(nb, "Cross".as_bytes()) {
        Some(HeadKind::Cross)
    } else if bytes_eq(nb, "DP".as_bytes()) {
        Some(HeadKind::Dp)
    } else if bytes_eq(nb, "ChangeColor".as_bytes()) {
        Some(HeadKind::ChangeColor)
    } else if bytes_eq(nb, "Swap".as_bytes()) {
        Some(HeadKind::Swap)
    } else {
        None
    }
}

/// The chained planner a name denotes, if any.
pub fn chain_kind_of(name: &str) -> (r: Option<ChainKind>)
    ensures
        r == spec_chain_kind(name.spec_bytes()),
{
    let nb = name.as_bytes();
    if bytes_eq(nb, "Refine".as_bytes()) {
        Some(ChainKind::Refine)
    } else if bytes_eq(nb, "Annealing".as_bytes()) {
        Some(ChainKind::Annealing)
    } else {
        None
    }
}

/// Everything the planner pipeline needs of its inputs.
pub open spec fn pipeline_input_wf(image: &Image, initial_state: &State, opt: PlannerOptions) -> bool {
    &&& image.wf()
    &&& initial_state@.wf()
    &&& initial_state@.blocks.len() >= 1
    &&& 2 <= image@.len()
    &&& 2 <= image@[0].len()
    &&& opt.wf()
}

/// Run the named head planner.
pub fn solve_head(kind: HeadKind, image: &Image, initial_state: &State, opt: &PlannerOptions) -> (r:
    Program)
    requires
        pipeline_input_wf(image, initial_state, *opt),
    ensures
        program_wf(r@),
        kind == HeadKind::OneColor ==> (r@.len() == 1 && (r@[0] matches MoveView::Color {
            block_id,
            ..
        } && block_id == seq![0u32])),
        kind == HeadKind::Swap ==> forall|i: int|
            0 <= i < r@.len() ==> (#[trigger] r@[i]) matches MoveView::Swap { .. },
        kind == HeadKind::ChangeColor ==> forall|i: int|
            0 <= i < r@.len() ==> (#[trigger] r@[i]) matches MoveView::Color { .. },
        kind == HeadKind::Cross ==> (r@.len() >= 1 && forall|i: int|
            0 <= i < r@.len() ==> ((#[trigger] r@[i]) matches MoveView::PCut { .. } || r@[i]
                matches MoveView::Color { .. })),
{
    match kind {
        HeadKind::OneColor => {
            let mut ai = OneColorAI {};
            ai.solve(image, initial_state)
        },
        HeadKind::Grid => {
            let rows: usize = if image.height() < 4 {
                1
            } else {
                4
            };
            let cols: usize = if image.width() < 4 {
                1
            } else {
                4
            };
            let mut ai = GridAI { rows, cols };
            ai.solve(image, initial_state)
        },
        HeadKind::Cross => {
            let mut ai = CrossAI { size: 3 };
            ai.solve(image, initial_state)
        },
        HeadKind::Dp => {
            let mut ai = DpAI::new(opt.dp_divide_num, opt.dp_color_num, 20, None);
            ai.solve(image, initial_state)
        },
        HeadKind::ChangeColor => {
            let mut ai = ChangeColorAI {};
            ai.solve(image, initial_state)
        },
        HeadKind::Swap => {
            let mut ai = SwapAI {};
            ai.solve(image, initial_state)
        },
    }
}

/// Run one named chained planner over a program.
pub fn solve_chain(
    kind: ChainKind,
    image: &Image,
    initial_state: &State,
    program: &Program,
    opt: &PlannerOptions,
) -> (r: Program)
    requires
        pipeline_input_wf(image, initial_state, *opt),
        program_wf(program@),
        program@.len() <= 1000000,
    ensures
        program_wf(r@),
        crate::render::spec_score(program@, image@, initial_state@) matches Some(s0) ==> (
        crate::render::spec_score(r@, image@, initial_state@) matches Some(s) && s <= s0),
{
    match kind {
        ChainKind::Refine => {
            let mut ai = RefineAi {
                n_iters: opt.refine_iters,
                algorithm: opt.refine_algorithm,
                initial_temperature_milli: opt.refine_initial_temperature_milli,
                dp_divide_max: opt.refine_dp_divide_max,
            };
            ai.solve(image, initial_state, program)
        },
        ChainKind::Annealing => {
            let mut ai = AnnealingAI { time_limit_millis: opt.annealing_millis };
            ai.solve(image, initial_state, program)
        },
    }
}

/// What one solver run produced: the final program, its score, and
/// the identifiers the host uses to file the results.
pub struct Output {
    pub run_id: Option<String>,
    pub problem_id: String,
    pub program: Program,
    pub score: i64,
    pub output_image_filename: String,
    pub ai: String,
}

} // verus!
