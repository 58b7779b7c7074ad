use isl_solver::ai::{GridAI, HeadAI, OneColorAI};
use isl_solver::ai::ChainedAI;
use isl_solver::dp_ai::DpAI;
use isl_solver::driver::{chain_kind_of, head_kind_of, ChainKind, HeadKind};
use isl_solver::image::Image;
use isl_solver::initial_config::{initial_state_from_config, InitialBlockConfig};
use isl_solver::isl::{BlockId, Color, Move, Point, Program};
use isl_solver::merge_ai::MergeAI;
use isl_solver::refine_ai::{OptimizeAlgorithm, RefineAi};
use isl_solver::render::calc_score;
use isl_solver::state::{SimpleBlock, State};

#[test]
fn one_color_on_a_solid_target_scores_the_color_cost_alone() {
    let image = Image::from_string_array(&["rrrr", "rrrr", "rrrr", "rrrr"]);
    let state = State::initial_state(4, 4, 0);
    let mut ai = OneColorAI {};
    let program = ai.solve(&image, &state);
    assert_eq!(program.len(), 1);
    match &program.0[0] {
        Move::Color { block_id, color } => {
            assert_eq!(*block_id, BlockId::new(&[0]));
            assert_eq!(*color, Color::new(255, 0, 0, 255));
        },
        _ => panic!("a one-color program holds a single color move"),
    }
    // a perfect fill: only the color move's cost remains
    let score = calc_score(&program, &image, &state).unwrap();
    assert_eq!(score, 5);
}

#[test]
fn dp_ai_test() {
    let block_id = BlockId::new(&[0, 0, 0, 2]);
    let simple_block =
        SimpleBlock::new(Point::new(1, 1), Point::new(3, 2), Color::new(255, 255, 255, 255));
    let state = State {
        blocks: vec![(block_id, simple_block)],
        next_global_id: 10,
        cost_coeff_version: 0,
    };
    let image = Image::from_string_array(&[
        "rr.....", "bbggg..", "bbggg..", "bbggg..", "bbggg..", "bbggg..", "bbggg..", "bbggg..",
        "bbggg..",
    ]);
    let mut dp_ai = DpAI::new(2, 3, 20, None);
    let dp_program = dp_ai.solve(&image, &state);
    assert_eq!(dp_ai.convert_point(0, 0), Point::new(1, 1));
    assert_eq!(dp_ai.convert_point(2, 2), Point::new(4, 3));
    let score = calc_score(&dp_program, &image, &state);
    assert!(score.is_ok());
}

#[test]
fn refiner_never_worsens_a_grid_fill() {
    let image = Image::from_string_array(&[
        "rrrrgggg", "rrrrgggg", "rrrrgggg", "rrrrgggg", "bbbb....", "bbbb....", "bbbb....",
        "bbbb....",
    ]);
    let state = State::initial_state(8, 8, 0);
    let mut grid = GridAI { rows: 4, cols: 4 };
    let start = grid.solve(&image, &state);
    let start_score = calc_score(&start, &image, &state).unwrap();
    let mut refine = RefineAi {
        n_iters: 1000,
        algorithm: OptimizeAlgorithm::HillClimbing,
        initial_temperature_milli: 5000,
        dp_divide_max: 10,
    };
    let refined = refine.solve(&image, &state, &start);
    let refined_score = calc_score(&refined, &image, &state).unwrap();
    assert!(refined_score <= start_score);
}

#[test]
fn merger_reduces_a_partition_to_one_block() {
    let image = Image::from_string_array(&["....", "....", "....", "...."]);
    let blocks = vec![
        InitialBlockConfig {
            block_id: 0,
            bottom_left: Point::new(0, 0),
            top_right: Point::new(2, 4),
            color: Some(Color::new(255, 255, 255, 255)),
        },
        InitialBlockConfig {
            block_id: 1,
            bottom_left: Point::new(2, 0),
            top_right: Point::new(4, 4),
            color: Some(Color::new(0, 0, 0, 255)),
        },
    ];
    let state = initial_state_from_config(&blocks, false).unwrap();
    let mut merger = MergeAI::new(0);
    let program = merger.solve(&image, &state).unwrap();
    // one merge for the two blocks, then the white color move
    assert_eq!(program.len(), 2);
    assert_eq!(merger.active_block_num(), 1);
    let merged = merger.merged_block_id();
    assert_eq!(merged, BlockId::new(&[2]));
    // the program executes cleanly from the initial partition
    let end = isl_solver::simulator::simulate_all(&program, &state).unwrap();
    assert_eq!(end.next_global_id, 3);
}

#[test]
fn redundant_color_moves_collapse_to_the_last() {
    let mut program = Program(vec![
        Move::Color { block_id: BlockId::new(&[0]), color: Color::new(1, 1, 1, 255) },
        Move::PCut { block_id: BlockId::new(&[0]), point: Point::new(1, 1) },
        Move::Color { block_id: BlockId::new(&[0]), color: Color::new(2, 2, 2, 255) },
        Move::Color { block_id: BlockId::new(&[1]), color: Color::new(3, 3, 3, 255) },
    ]);
    program.remove_redundant_color_move();
    assert_eq!(program.len(), 3);
    match &program.0[0] {
        Move::PCut { .. } => {},
        _ => panic!("the superseded color move is dropped"),
    }
    match &program.0[1] {
        Move::Color { color, .. } => assert_eq!(*color, Color::new(2, 2, 2, 255)),
        _ => panic!("the last color of [0] is kept"),
    }
}

#[test]
fn initial_config_rejects_out_of_bounds_blocks() {
    let blocks = vec![InitialBlockConfig {
        block_id: 0,
        bottom_left: Point::new(2, 2),
        top_right: Point::new(1, 4),
        color: None,
    }];
    assert!(initial_state_from_config(&blocks, false).is_none());
}

#[test]
fn planner_names_map_to_kinds() {
    assert_eq!(head_kind_of("OneColor"), Some(HeadKind::OneColor));
    assert_eq!(head_kind_of("Grid"), Some(HeadKind::Grid));
    assert_eq!(head_kind_of("Cross"), Some(HeadKind::Cross));
    assert_eq!(head_kind_of("DP"), Some(HeadKind::Dp));
    assert_eq!(head_kind_of("ChangeColor"), Some(HeadKind::ChangeColor));
    assert_eq!(head_kind_of("Swap"), Some(HeadKind::Swap));
    assert_eq!(head_kind_of("Bogus"), None);
    assert_eq!(chain_kind_of("Refine"), Some(ChainKind::Refine));
    assert_eq!(chain_kind_of("Annealing"), Some(ChainKind::Annealing));
    assert_eq!(chain_kind_of("Bogus"), None);
}

#[test]
fn kmeans_returns_valid_colors() {
    let image = Image::from_string_array(&["rrgg", "rrgg", "bb..", "bb.."]);
    let mut rng = rand::thread_rng();
    let samples =
        isl_solver::kmeans::k_means_color_sampling(&image, 3, 8, 0, 0, 4, 4, &mut rng);
    assert!(samples.len() >= 1);
    assert!(samples.len() <= 3);
    for c in &samples {
        assert!(0 <= c.r && c.r <= 255);
        assert!(0 <= c.g && c.g <= 255);
        assert!(0 <= c.b && c.b <= 255);
        assert!(0 <= c.a && c.a <= 255);
    }
}

#[test]
fn average_and_majority_of_a_window() {
    let image = Image::from_string_array(&["r.", "rr"]);
    // three red pixels and one white: mean channel (3*255 + 255)/4 on r
    let avg = image.average(Point::new(0, 0), Point::new(2, 2));
    assert_eq!(avg.r, 255);
    assert_eq!(avg.g, 64);
    assert_eq!(avg.b, 64);
    assert_eq!(avg.a, 255);
    let maj = image.majority(Point::new(0, 0), Point::new(2, 2));
    assert_eq!(maj, Color::new(255, 0, 0, 255));
}

#[test]
fn isqrt_is_exact() {
    assert_eq!(isl_solver::similarity::isqrt(0), 0);
    assert_eq!(isl_solver::similarity::isqrt(1), 1);
    assert_eq!(isl_solver::similarity::isqrt(15), 3);
    assert_eq!(isl_solver::similarity::isqrt(16), 4);
    assert_eq!(isl_solver::similarity::isqrt(1 << 58), 1 << 29);
}

#[test]
fn dp_memo_value_matches_the_executed_score() {
    // one block covering the whole canvas: the memoized value and the
    // real score differ only by the per-cell similarity rounding
    let image = Image::from_string_array(&[
        "rrrgg.", "rrrgg.", "rrrgg.", "bbb...", "bbb...", "bbb...",
    ]);
    let state = State::initial_state(6, 6, 0);
    let mut dp_ai = DpAI::new(2, 3, 10, None);
    let program = dp_ai.solve(&image, &state);
    let score = calc_score(&program, &image, &state).unwrap();
    let stored = dp_ai.best_value().unwrap();
    let d = 2i64;
    assert!((stored - score).abs() <= 2 * d * d);
}

#[test]
fn random_draws_stay_in_their_range() {
    let mut rng = rand::thread_rng();
    for _ in 0..200 {
        let v = isl_solver::rng::gen_range_usize(&mut rng, 3, 10);
        assert!((3..10).contains(&v));
        let w = isl_solver::rng::gen_range_i32(&mut rng, -5, 6);
        assert!((-5..6).contains(&w));
    }
    assert_eq!(isl_solver::rng::gen_range_usize(&mut rng, 5, 6), 5);
    assert!(isl_solver::rng::gen_unit(&mut rng) < 1u64 << 32);
}

#[test]
fn refiner_with_no_budget_returns_the_starting_program() {
    let image = Image::from_string_array(&["rr..", "rr..", "....", "...."]);
    let state = State::initial_state(4, 4, 0);
    let start = Program(vec![Move::Color {
        block_id: BlockId::new(&[0]),
        color: Color::new(255, 0, 0, 255),
    }]);
    let mut refine = RefineAi {
        n_iters: 0,
        algorithm: OptimizeAlgorithm::HillClimbing,
        initial_temperature_milli: 5000,
        dp_divide_max: 10,
    };
    let refined = refine.solve(&image, &state, &start);
    assert_eq!(refined.to_text(), start.to_text());
    // an empty starting program is returned unchanged as well
    let mut refine = RefineAi {
        n_iters: 50,
        algorithm: OptimizeAlgorithm::HillClimbing,
        initial_temperature_milli: 5000,
        dp_divide_max: 10,
    };
    let empty = Program(Vec::new());
    let refined = refine.solve(&image, &state, &empty);
    assert_eq!(refined.to_text(), "");
}

#[test]
fn merger_on_a_single_block_emits_the_white_color_move_alone() {
    let image = Image::from_string_array(&["..", ".."]);
    let state = State::initial_state(2, 2, 0);
    let mut merger = MergeAI::new(0);
    let program = merger.solve(&image, &state).unwrap();
    assert_eq!(program.len(), 1);
    assert_eq!(program.to_text(), "color [0] [255, 255, 255, 255]\n");
}

#[test]
fn descendant_removal_filters_exactly_the_subtree() {
    let cut = Move::PCut { block_id: BlockId::new(&[0]), point: Point::new(2, 2) };
    let child_color = Move::Color { block_id: BlockId::new(&[0, 1]), color: Color::new(1, 2, 3, 255) };
    let other_color = Move::Color { block_id: BlockId::new(&[1]), color: Color::new(4, 5, 6, 255) };
    let program = Program(vec![cut.clone(), child_color, other_color.clone()]);
    let kept = RefineAi::remove_all_child(&program, &BlockId::new(&[0])).unwrap();
    // the move on [0] itself stays, the move on its child [0.1] goes,
    // the move on the unrelated [1] stays, in order
    let expected = Program(vec![cut, other_color]);
    assert_eq!(kept.to_text(), expected.to_text());
    // a swap touching a descendant rejects the whole removal
    let swap = Move::Swap { a: BlockId::new(&[0, 0]), b: BlockId::new(&[1]) };
    let program = Program(vec![swap]);
    assert!(RefineAi::remove_all_child(&program, &BlockId::new(&[0])).is_none());
}
