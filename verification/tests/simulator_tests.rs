use isl_solver::image::Image;
use isl_solver::isl::{BlockId, Color, Move, Orientation, Point, Program};
use isl_solver::render::{calc_score, calc_state_similarity, program_cost_sum, rasterize_state};
use isl_solver::simulator::{move_cost, simulate, simulate_all};
use isl_solver::state::{SimpleBlock, State};

fn must(r: Option<()>) {
    assert!(r.is_some());
}

#[test]
fn test_simulate() {
    // the simulator's behaviour is covered move by move below
}

#[test]
fn simulator_test_simulate_pcut() {
    let mut state = State::initial_state(5, 3, 0);
    must(simulate(
        &mut state,
        &Move::PCut { block_id: BlockId::new(&[0]), point: Point::new(2, 1) },
    ));
    must(simulate(
        &mut state,
        &Move::Color { block_id: BlockId::new(&[0, 0]), color: Color::new(255, 0, 0, 255) },
    ));
    must(simulate(
        &mut state,
        &Move::Color { block_id: BlockId::new(&[0, 2]), color: Color::new(0, 255, 0, 255) },
    ));
    must(simulate(
        &mut state,
        &Move::Color { block_id: BlockId::new(&[0, 3]), color: Color::new(0, 0, 255, 255) },
    ));
    let expected = Image::from_string_array(&["rr...", "bbggg", "bbggg"]);
    let actual = rasterize_state(&state, 5, 3);
    assert_eq!(expected.0, actual.0);
}

#[test]
fn simulator_test_simulate_pcut_twice() {
    let mut state = State::initial_state(8, 8, 0);
    must(simulate(
        &mut state,
        &Move::PCut { block_id: BlockId::new(&[0]), point: Point::new(4, 4) },
    ));
    must(simulate(
        &mut state,
        &Move::PCut { block_id: BlockId::new(&[0, 1]), point: Point::new(6, 2) },
    ));
    must(simulate(
        &mut state,
        &Move::Color { block_id: BlockId::new(&[0, 1, 0]), color: Color::new(0, 255, 0, 255) },
    ));
    let expected = Image::from_string_array(&[
        "....gg..", "....gg..", "........", "........", "........", "........", "........",
        "........",
    ]);
    let actual = rasterize_state(&state, 8, 8);
    assert_eq!(expected.0, actual.0);
}

#[test]
fn simulator_test_simulate_lcut_twice() {
    let mut state = State::initial_state(8, 8, 0);
    must(simulate(
        &mut state,
        &Move::LCut {
            block_id: BlockId::new(&[0]),
            orientation: Orientation::Horizontal,
            line_number: 4,
        },
    ));
    must(simulate(
        &mut state,
        &Move::LCut {
            block_id: BlockId::new(&[0, 1]),
            orientation: Orientation::Horizontal,
            line_number: 6,
        },
    ));
    must(simulate(
        &mut state,
        &Move::Color { block_id: BlockId::new(&[0, 1, 0]), color: Color::new(0, 255, 0, 255) },
    ));
    let expected = Image::from_string_array(&[
        "........", "........", "........", "........", "gggggggg", "gggggggg", "........",
        "........",
    ]);
    let actual = rasterize_state(&state, 8, 8);
    assert_eq!(expected.0, actual.0);
}

#[test]
fn simulator_test_simulate_swap() {
    let mut state = State::initial_state(4, 3, 0);
    must(simulate(
        &mut state,
        &Move::LCut {
            block_id: BlockId::new(&[0]),
            orientation: Orientation::Vertical,
            line_number: 2,
        },
    ));
    must(simulate(
        &mut state,
        &Move::Color { block_id: BlockId::new(&[0, 0]), color: Color::new(255, 0, 0, 255) },
    ));
    must(simulate(
        &mut state,
        &Move::Swap { a: BlockId::new(&[0, 0]), b: BlockId::new(&[0, 1]) },
    ));
    let expected = Image::from_string_array(&["..rr", "..rr", "..rr"]);
    let actual = rasterize_state(&state, 4, 3);
    assert_eq!(expected.0, actual.0);
}

#[test]
fn simulator_test_simulate_merge_vertically() {
    let mut state = State::initial_state(5, 3, 0);
    must(simulate(
        &mut state,
        &Move::PCut { block_id: BlockId::new(&[0]), point: Point::new(2, 1) },
    ));
    must(simulate(
        &mut state,
        &Move::Merge { a: BlockId::new(&[0, 0]), b: BlockId::new(&[0, 3]) },
    ));
    must(simulate(
        &mut state,
        &Move::Color { block_id: BlockId::new(&[1]), color: Color::new(255, 0, 0, 255) },
    ));
    let expected = Image::from_string_array(&["rr...", "rr...", "rr..."]);
    let actual = rasterize_state(&state, 5, 3);
    assert_eq!(expected.0, actual.0);
}

#[test]
fn simulator_test_simulate_merge_horizontally() {
    let mut state = State::initial_state(5, 3, 0);
    must(simulate(
        &mut state,
        &Move::PCut { block_id: BlockId::new(&[0]), point: Point::new(2, 1) },
    ));
    must(simulate(
        &mut state,
        &Move::Merge { a: BlockId::new(&[0, 2]), b: BlockId::new(&[0, 3]) },
    ));
    must(simulate(
        &mut state,
        &Move::Color { block_id: BlockId::new(&[1]), color: Color::new(255, 0, 0, 255) },
    ));
    let expected = Image::from_string_array(&[".....", "rrrrr", "rrrrr"]);
    let actual = rasterize_state(&state, 5, 3);
    assert_eq!(expected.0, actual.0);
}

#[test]
fn test_simulate_merge_complex() {
    let mut state = State::initial_state(5, 3, 0);
    must(simulate(
        &mut state,
        &Move::PCut { block_id: BlockId::new(&[0]), point: Point::new(2, 1) },
    ));
    must(simulate(
        &mut state,
        &Move::Color { block_id: BlockId::new(&[0, 2]), color: Color::new(255, 0, 0, 255) },
    ));
    must(simulate(
        &mut state,
        &Move::Color { block_id: BlockId::new(&[0, 3]), color: Color::new(0, 255, 0, 255) },
    ));
    must(simulate(
        &mut state,
        &Move::Merge { a: BlockId::new(&[0, 2]), b: BlockId::new(&[0, 3]) },
    ));
    must(simulate(
        &mut state,
        &Move::LCut {
            block_id: BlockId::new(&[1]),
            orientation: Orientation::Horizontal,
            line_number: 2,
        },
    ));
    must(simulate(
        &mut state,
        &Move::Color { block_id: BlockId::new(&[1, 1]), color: Color::new(0, 0, 255, 255) },
    ));
    let expected = Image::from_string_array(&[".....", "ggrrr", "bbbbb"]);
    let actual = rasterize_state(&state, 5, 3);
    assert_eq!(expected.0, actual.0);
}

#[test]
fn simulator_test_simple_block_rasterize() {
    let red = Color::new(255, 0, 0, 255);
    let simple_block = SimpleBlock::new(Point::new(1, 2), Point::new(5, 3), red);
    let mut image = Image::new(10, 4);
    simple_block.rasterize(&mut image);
    let expected =
        Image::from_string_array(&["..........", "..........", ".rrrrr....", ".rrrrr...."]);
    assert_eq!(expected.0, image.0);
}

#[test]
fn simulator_test_calc_state_similarity() {
    let red = Color::new(255, 0, 0, 255);
    let mut state = State::initial_state(5, 3, 0);
    must(simulate(
        &mut state,
        &Move::LCut {
            block_id: BlockId::new(&[0]),
            orientation: Orientation::Vertical,
            line_number: 2,
        },
    ));
    must(simulate(&mut state, &Move::Color { block_id: BlockId::new(&[0, 1]), color: red }));
    let target_image = Image::from_string_array(&["..rr.", "..r.r", ".rrrr"]);
    let expected_pixel_diff = 3.0 * (255.0 * 255.0f32 + 255.0 * 255.0f32).sqrt();
    let expected_similarity = (expected_pixel_diff * 0.005).round() as i64;
    let actual = calc_state_similarity(&state, &target_image);
    assert_eq!(expected_similarity, actual);
}

#[test]
fn simulator_test_move_cost() {
    let mut state = State::initial_state(5, 3, 0);
    must(simulate(
        &mut state,
        &Move::LCut {
            block_id: BlockId::new(&[0]),
            orientation: Orientation::Vertical,
            line_number: 2,
        },
    ));
    let mv = Move::Color { block_id: BlockId::new(&[0, 1]), color: Color::new(0, 0, 0, 0) };
    let actual = move_cost(&state, &mv, 5, 3).unwrap();
    let expected = (5.0f32 * (5.0 * 3.0) / (3.0 * 3.0)).round() as i64;
    assert_eq!(expected, actual);
}

#[test]
fn score_decomposes_into_costs_and_similarity() {
    let target = Image::from_string_array(&["rr...", "bbggg", "bbggg"]);
    let state = State::initial_state(5, 3, 0);
    let program = Program(vec![
        Move::PCut { block_id: BlockId::new(&[0]), point: Point::new(2, 1) },
        Move::Color { block_id: BlockId::new(&[0, 0]), color: Color::new(255, 0, 0, 255) },
    ]);
    let total = calc_score(&program, &target, &state).unwrap();
    let costs = program_cost_sum(&program, &state, 5, 3).unwrap();
    let end = simulate_all(&program, &state).unwrap();
    let sim = calc_state_similarity(&end, &target);
    assert_eq!(total, costs + sim);
}

#[test]
fn executing_twice_from_clones_matches() {
    let state = State::initial_state(6, 6, 0);
    let program = Program(vec![
        Move::PCut { block_id: BlockId::new(&[0]), point: Point::new(3, 3) },
        Move::Color { block_id: BlockId::new(&[0, 2]), color: Color::new(10, 20, 30, 255) },
        Move::Merge { a: BlockId::new(&[0, 0]), b: BlockId::new(&[0, 1]) },
    ]);
    let s1 = simulate_all(&program, &state.clone()).unwrap();
    let s2 = simulate_all(&program, &state.clone()).unwrap();
    let img1 = rasterize_state(&s1, 6, 6);
    let img2 = rasterize_state(&s2, 6, 6);
    assert_eq!(img1.0, img2.0);
    assert_eq!(s1.next_global_id, s2.next_global_id);
    assert_eq!(s1.blocks.len(), s2.blocks.len());
}

#[test]
fn pcut_then_merges_cover_the_block() {
    // cut a canvas-sized block and merge the pieces back together
    let mut state = State::initial_state(7, 5, 0);
    must(simulate(
        &mut state,
        &Move::PCut { block_id: BlockId::new(&[0]), point: Point::new(3, 2) },
    ));
    must(simulate(
        &mut state,
        &Move::Merge { a: BlockId::new(&[0, 0]), b: BlockId::new(&[0, 1]) },
    ));
    must(simulate(
        &mut state,
        &Move::Merge { a: BlockId::new(&[0, 2]), b: BlockId::new(&[0, 3]) },
    ));
    must(simulate(&mut state, &Move::Merge { a: BlockId::new(&[1]), b: BlockId::new(&[2]) }));
    let merged = state.get_block(&BlockId::new(&[3])).unwrap();
    assert_eq!(merged.p, Point::new(0, 0));
    assert_eq!(merged.size, Point::new(7, 5));
    assert!(merged.color.is_invalid());
}

#[test]
fn invalid_move_reports_its_line() {
    let state = State::initial_state(4, 4, 0);
    let program = Program(vec![
        Move::PCut { block_id: BlockId::new(&[0]), point: Point::new(2, 2) },
        // block [0] is no longer active: the second cut must fail
        Move::PCut { block_id: BlockId::new(&[0]), point: Point::new(1, 1) },
    ]);
    let err = simulate_all(&program, &state).err().unwrap();
    assert_eq!(err.line_number, 2);
}

#[test]
fn missing_block_makes_a_move_invalid() {
    let mut state = State::initial_state(4, 4, 0);
    let r = simulate(
        &mut state,
        &Move::Color { block_id: BlockId::new(&[7]), color: Color::new(0, 0, 0, 255) },
    );
    assert!(r.is_none());
}

#[test]
fn cut_point_must_be_interior() {
    let mut state = State::initial_state(4, 4, 0);
    let r = simulate(
        &mut state,
        &Move::PCut { block_id: BlockId::new(&[0]), point: Point::new(0, 2) },
    );
    assert!(r.is_none());
    let r = simulate(
        &mut state,
        &Move::PCut { block_id: BlockId::new(&[0]), point: Point::new(4, 2) },
    );
    assert!(r.is_none());
}

#[test]
fn swap_needs_equal_sizes() {
    let mut state = State::initial_state(4, 4, 0);
    must(simulate(
        &mut state,
        &Move::LCut {
            block_id: BlockId::new(&[0]),
            orientation: Orientation::Vertical,
            line_number: 1,
        },
    ));
    let r = simulate(
        &mut state,
        &Move::Swap { a: BlockId::new(&[0, 0]), b: BlockId::new(&[0, 1]) },
    );
    assert!(r.is_none());
}

#[test]
fn exact_score_of_a_cut_and_color_program_on_a_large_canvas() {
    // a 400x400 all-white target; the program cuts twice and paints
    // two blocks, so every part of the score is computable by hand
    let target = {
        let mut rows = Vec::new();
        for _ in 0..400 {
            rows.push(vec![Color::new(255, 255, 255, 255); 400]);
        }
        Image(rows)
    };
    let state = State::initial_state(400, 400, 0);
    let program = Program(vec![
        Move::PCut { block_id: BlockId::new(&[0]), point: Point::new(37, 233) },
        Move::LCut {
            block_id: BlockId::new(&[0, 2]),
            orientation: Orientation::Vertical,
            line_number: 354,
        },
        Move::Color { block_id: BlockId::new(&[0, 2, 0]), color: Color::new(0, 0, 0, 255) },
        Move::Color { block_id: BlockId::new(&[0, 1]), color: Color::new(254, 254, 254, 255) },
    ]);
    // move costs: round(base * 160000 / area), half up
    let round_cost = |base: i64, area: i64| (2 * base * 160000 + area) / (2 * area);
    let cost = round_cost(10, 400 * 400)      // cut the canvas
        + round_cost(7, 363 * 167)            // cut block [0.2]
        + round_cost(5, 317 * 167)            // paint [0.2.0]
        + round_cost(5, 363 * 233);           // paint [0.1]
    // similarity: black and near-white regions against white
    let d_black = isl_solver::similarity::isqrt((3 * 255 * 255) << 40) as i64;
    let d_gray = isl_solver::similarity::isqrt(3u64 << 40) as i64;
    let raw = (317 * 167) * d_black + (363 * 233) * d_gray;
    let sim = (2 * raw + 209715200) / (2 * 209715200);
    let score = calc_score(&program, &target, &state).unwrap();
    assert_eq!(score, cost + sim);
}
