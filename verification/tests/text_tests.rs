use isl_solver::isl::{BlockId, Color, Move, Orientation, Point, Program};
use isl_solver::isl_text::{format_color, format_point, i32_to_string, u64_to_string};

#[test]
fn isl_move_display_test() {
    let pcut = Move::PCut { block_id: BlockId::new(&[0, 4, 2]), point: Point::new(12, 34) };
    assert_eq!("cut [0.4.2] [12, 34]", pcut.to_text());

    let lcut = Move::LCut {
        block_id: BlockId::new(&[0, 4, 2]),
        orientation: Orientation::Horizontal,
        line_number: 3,
    };
    assert_eq!("cut [0.4.2] [Y] [3]", lcut.to_text());

    let color = Move::Color {
        block_id: BlockId::new(&[0, 4, 2]),
        color: Color::new(255, 255, 128, 255),
    };
    assert_eq!("color [0.4.2] [255, 255, 128, 255]", color.to_text());

    let swap = Move::Swap { a: BlockId::new(&[0, 4, 2]), b: BlockId::new(&[1]) };
    assert_eq!("swap [0.4.2] [1]", swap.to_text());

    let merge = Move::Merge { a: BlockId::new(&[0, 4, 2]), b: BlockId::new(&[1]) };
    assert_eq!("merge [0.4.2] [1]", merge.to_text());
}

#[test]
fn vertical_cut_renders_with_x_axis() {
    let lcut = Move::LCut {
        block_id: BlockId::new(&[7]),
        orientation: Orientation::Vertical,
        line_number: 354,
    };
    assert_eq!("cut [7] [X] [354]", lcut.to_text());
}

#[test]
fn program_text_is_one_move_per_line() {
    let program = Program(vec![
        Move::PCut { block_id: BlockId::new(&[0]), point: Point::new(37, 233) },
        Move::Color { block_id: BlockId::new(&[0, 1]), color: Color::new(254, 254, 254, 255) },
    ]);
    assert_eq!("cut [0] [37, 233]\ncolor [0.1] [254, 254, 254, 255]\n", program.to_text());
}

#[test]
fn decimal_rendering_is_exact() {
    assert_eq!("0", u64_to_string(0));
    assert_eq!("7", u64_to_string(7));
    assert_eq!("10", u64_to_string(10));
    assert_eq!("65535", u64_to_string(65535));
    assert_eq!("-17", i32_to_string(-17));
    assert_eq!("2147483647", i32_to_string(i32::MAX));
    assert_eq!("-2147483648", i32_to_string(i32::MIN));
}

#[test]
fn point_and_color_render_in_brackets() {
    assert_eq!("[3, -4]", format_point(&Point::new(3, -4)));
    assert_eq!("[0, 0, 0, 255]", format_color(&Color::new(0, 0, 0, 255)));
}
