//! The edit pipeline.

use imaginer::adjust::Adjust;
use imaginer::edit::{clamped_crop, opaque_bounds, Applied, Edits, Op};
use imaginer::raster::Raster;

fn drawn(width: u32, height: u32, f: impl Fn(u32, u32) -> [u8; 4]) -> Raster {
    let mut bytes = Vec::new();
    for y in 0..height {
        for x in 0..width {
            bytes.extend_from_slice(&f(x, y));
        }
    }
    Raster::from_raw(width, height, bytes).unwrap()
}

/// A small image with no symmetry, so that any flip or rotation shows.
fn asymmetric() -> Raster {
    drawn(4, 2, |x, y| [(x * 60) as u8, (y * 90) as u8, 7, 255])
}

fn run(edits: &Edits, src: &Raster) -> Raster {
    edits.apply(src).into_owned()
}

fn stack(ops: &[Op]) -> Edits {
    let mut edits = Edits::default();
    for op in ops {
        edits.push(*op);
    }
    edits
}

fn brightness(percent: i16) -> Adjust {
    Adjust { brightness: percent, contrast: 0, saturation: 0 }
}

fn brighter(percent: i16) -> Op {
    Op::Adjust(brightness(percent))
}

#[test]
fn flipping_twice_returns_the_original() {
    let src = asymmetric();
    let edits = stack(&[Op::FlipHorizontal, Op::FlipHorizontal]);
    assert_eq!(run(&edits, &src), src);
}

#[test]
fn four_quarter_turns_return_the_original() {
    let src = asymmetric();
    let edits = stack(&[Op::RotateCw, Op::RotateCw, Op::RotateCw, Op::RotateCw]);
    assert_eq!(run(&edits, &src), src);
}

#[test]
fn opposite_rotations_cancel() {
    let src = asymmetric();
    let edits = stack(&[Op::RotateCw, Op::RotateCcw]);
    assert_eq!(run(&edits, &src), src);
}

#[test]
fn mirroring_doubles_the_width_and_reflects_the_right_half() {
    let src = asymmetric();
    let out = run(&stack(&[Op::MirrorHorizontal]), &src);

    assert_eq!(out.dimensions(), (8, 2));
    for y in 0..2 {
        for x in 0..4 {
            assert_eq!(out.get_pixel(x, y), src.get_pixel(x, y), "left half at {x},{y}");
            assert_eq!(out.get_pixel(7 - x, y), src.get_pixel(x, y), "right half at {x},{y}");
        }
    }
}

#[test]
fn mirroring_vertically_doubles_the_height() {
    let src = asymmetric();
    let out = run(&stack(&[Op::MirrorVertical]), &src);

    assert_eq!(out.dimensions(), (4, 4));
    assert_eq!(out.get_pixel(0, 3), src.get_pixel(0, 0));
}

#[test]
fn predicted_size_matches_what_apply_produces() {
    let src = asymmetric();
    let edits = stack(&[Op::RotateCw, Op::MirrorHorizontal, Op::FlipVertical]);

    let predicted = edits.size_after(src.dimensions());
    assert_eq!(run(&edits, &src).dimensions(), predicted);
}

#[test]
fn an_empty_pipeline_borrows_rather_than_copying() {
    let src = asymmetric();
    assert!(matches!(Edits::default().apply(&src), Applied::Borrowed(_)));
}

#[test]
fn undo_and_redo_walk_the_stack() {
    let mut edits = Edits::default();
    edits.push(Op::RotateCw);
    edits.push(Op::FlipVertical);

    assert!(edits.undo());
    assert_eq!(edits.ops(), [Op::RotateCw]);
    assert!(edits.redo());
    assert_eq!(edits.ops(), [Op::RotateCw, Op::FlipVertical]);

    assert!(edits.undo());
    assert!(edits.undo());
    assert!(!edits.undo());
    assert!(!edits.can_undo());
}

#[test]
fn a_new_op_discards_the_redo_branch() {
    let mut edits = Edits::default();
    edits.push(Op::RotateCw);
    edits.undo();
    assert!(edits.can_redo());

    edits.push(Op::FlipHorizontal);
    assert!(!edits.can_redo());
    assert_eq!(edits.ops(), [Op::FlipHorizontal]);
}

#[test]
fn cropping_keeps_the_rectangle_that_was_asked_for() {
    let src = asymmetric();
    let out = run(&stack(&[Op::Crop { x: 1, y: 0, width: 2, height: 2 }]), &src);

    assert_eq!(out.dimensions(), (2, 2));
    assert_eq!(out.get_pixel(0, 0), src.get_pixel(1, 0));
    assert_eq!(out.get_pixel(1, 1), src.get_pixel(2, 1));
}

#[test]
fn a_crop_reaching_past_the_edge_is_trimmed_rather_than_fatal() {
    let src = asymmetric();
    let edits = stack(&[Op::Crop { x: 3, y: 1, width: 999, height: 999 }]);

    let predicted = edits.size_after(src.dimensions());
    let out = run(&edits, &src);
    assert_eq!(out.dimensions(), (1, 1));
    assert_eq!(out.dimensions(), predicted);
}

#[test]
fn a_crop_entirely_outside_the_image_leaves_it_alone() {
    let src = asymmetric();
    let edits = stack(&[Op::Crop { x: 40, y: 40, width: 10, height: 10 }]);
    assert_eq!(run(&edits, &src), src);
}

#[test]
fn a_crop_entirely_outside_the_image_is_predicted_to_leave_it_alone() {
    let outside = Op::Crop { x: 40, y: 40, width: 10, height: 10 };
    assert_eq!(outside.size_after((4, 2)), (4, 2));
    assert_eq!(Op::Crop { x: 4, y: 0, width: 1, height: 1 }.size_after((4, 2)), (4, 2));

    let src = asymmetric();
    let edits = stack(&[outside, Op::RotateCw, outside, Op::MirrorHorizontal]);
    assert_eq!(edits.size_after(src.dimensions()), (4, 4));
    assert_eq!(run(&edits, &src).dimensions(), (4, 4));
}

#[test]
fn a_side_is_not_doubled_past_what_can_be_counted() {
    assert_eq!(Op::MirrorHorizontal.size_after((3_000_000_000, 2)), (u32::MAX, 2));
    assert_eq!(Op::MirrorVertical.size_after((2, 3_000_000_000)), (2, u32::MAX));
}

#[test]
fn a_crop_is_measured_against_the_image_the_pipeline_reaches_it_with() {
    let src = asymmetric();
    let edits = stack(&[Op::RotateCw, Op::Crop { x: 0, y: 3, width: 2, height: 1 }]);
    assert_eq!(run(&edits, &src).dimensions(), (2, 1));
}

#[test]
fn an_opaque_image_has_nothing_to_trim() {
    assert_eq!(opaque_bounds(&asymmetric()), Some((0, 0, 4, 2)));
}

#[test]
fn trimming_finds_the_content_inside_a_transparent_border() {
    let src = drawn(6, 6, |x, y| {
        if (2..4).contains(&x) && (1..4).contains(&y) {
            [255, 0, 0, 255]
        } else {
            [0, 0, 0, 0]
        }
    });
    assert_eq!(opaque_bounds(&src), Some((2, 1, 2, 3)));
}

#[test]
fn a_fully_transparent_image_has_no_bounds_at_all() {
    let src = drawn(4, 4, |_, _| [9, 9, 9, 0]);
    assert_eq!(opaque_bounds(&src), None);
}

#[test]
fn a_single_opaque_pixel_is_a_one_by_one_rectangle() {
    let src = drawn(5, 5, |x, y| if (x, y) == (3, 4) { [1, 2, 3, 1] } else { [0, 0, 0, 0] });
    assert_eq!(opaque_bounds(&src), Some((3, 4, 1, 1)));
}

#[test]
fn only_flips_leave_the_size_alone() {
    assert!(!Op::FlipHorizontal.changes_size());
    assert!(!Op::FlipVertical.changes_size());
    assert!(!Op::Adjust(Adjust::none()).changes_size());
    assert!(Op::RotateCw.changes_size());
    assert!(Op::MirrorHorizontal.changes_size());
}

#[test]
fn only_the_last_adjustment_runs() {
    let src = asymmetric();
    let twice = stack(&[brighter(10), brighter(20)]);
    let once = stack(&[brighter(20)]);
    assert_eq!(run(&twice, &src), run(&once, &src));
}

#[test]
fn undo_returns_to_the_previous_setting_rather_than_to_none() {
    let src = asymmetric();
    let mut edits = stack(&[brighter(10), brighter(20)]);
    edits.undo();

    assert_eq!(edits.adjust(), brightness(10));
    let only_ten = stack(&[brighter(10)]);
    assert_eq!(run(&edits, &src), run(&only_ten, &src));
}

#[test]
fn an_adjustment_dragged_back_to_zero_costs_nothing() {
    let src = asymmetric();
    let edits = stack(&[brighter(30), brighter(0)]);
    assert!(matches!(edits.apply(&src), Applied::Borrowed(_)));
}

#[test]
fn an_adjustment_commutes_with_the_geometry_around_it() {
    let src = asymmetric();
    let first = stack(&[brighter(25), Op::RotateCw]);
    let second = stack(&[Op::RotateCw, brighter(25)]);
    assert_eq!(run(&first, &src), run(&second, &src));
}

#[test]
fn previewing_shows_a_setting_without_recording_it() {
    let src = asymmetric();
    let edits = stack(&[Op::RotateCw]);
    let preview = edits.previewing(brightness(40));

    let committed = stack(&[Op::RotateCw, brighter(40)]);
    assert_eq!(run(&preview, &src), run(&committed, &src));

    assert_eq!(edits.ops(), [Op::RotateCw]);
    assert_eq!(edits.adjust(), Adjust::none());
}

#[test]
fn previewing_moves_nothing() {
    let src = asymmetric();
    let edits = stack(&[Op::RotateCw, brighter(60), Op::MirrorVertical]);
    let preview = edits.previewing(brightness(5));
    assert_eq!(preview.adjust(), brightness(5));
    assert_eq!(preview.size_after((4, 2)), edits.size_after((4, 2)));
    assert_eq!(
        preview.apply_geometry(&src).into_owned(),
        edits.apply_geometry(&src).into_owned()
    );
}

#[test]
fn the_geometry_pass_leaves_colour_alone_but_keeps_every_move() {
    let src = asymmetric();
    let edits = stack(&[Op::RotateCw, brighter(60), Op::FlipVertical]);
    let without_colour = stack(&[Op::RotateCw, Op::FlipVertical]);

    let geometry = edits.apply_geometry(&src).into_owned();
    assert_eq!(
        geometry,
        run(&without_colour, &src),
        "the texture must show every move and no colour change"
    );
    assert_ne!(run(&edits, &src), geometry);
}

#[test]
fn a_colour_only_pipeline_leaves_the_geometry_pass_borrowing() {
    let src = asymmetric();
    let edits = stack(&[brighter(60)]);
    assert!(matches!(edits.apply_geometry(&src), Applied::Borrowed(_)));
}

#[test]
fn previewing_replaces_rather_than_compounds_an_existing_adjustment() {
    let src = asymmetric();
    let edits = stack(&[brighter(60)]);
    let preview = edits.previewing(brightness(5));
    let only_five = stack(&[brighter(5)]);
    assert_eq!(run(&preview, &src), run(&only_five, &src));
}

#[test]
fn a_quarter_turn_takes_the_left_edge_to_the_top() {
    let src = asymmetric();
    let out = run(&stack(&[Op::RotateCw]), &src);
    assert_eq!(out.dimensions(), (2, 4));
    // The bottom-left corner becomes the top-left one.
    assert_eq!(out.get_pixel(0, 0), src.get_pixel(0, 1));
    let back = run(&stack(&[Op::RotateCcw]), &src);
    assert_eq!(back.get_pixel(0, 0), src.get_pixel(3, 0));
}

#[test]
fn a_crop_keeps_only_what_is_there() {
    assert_eq!(clamped_crop(1, 1, 2, 2, (4, 2)), (1, 1, 2, 1));
    assert_eq!(clamped_crop(0, 0, 9, 9, (4, 2)), (0, 0, 4, 2));
    assert_eq!(Op::Crop { x: 1, y: 0, width: 2, height: 2 }.size_after((4, 2)), (2, 2));
}

#[test]
fn clearing_forgets_what_could_be_redone() {
    let mut edits = stack(&[Op::RotateCw, Op::FlipVertical]);
    edits.undo();
    assert_eq!(edits.len(), 1);
    edits.clear();
    assert!(edits.is_empty());
    assert!(!edits.can_undo());
    assert!(!edits.can_redo());
}

#[test]
fn redoing_what_was_undone_restores_the_stack() {
    let mut edits = stack(&[Op::RotateCw, brighter(3)]);
    edits.undo();
    edits.redo();
    assert_eq!(edits.ops(), [Op::RotateCw, brighter(3)]);
    assert!(!edits.redo());
}

#[test]
fn a_pipeline_fits_only_what_a_machine_can_hold() {
    let edits = stack(&[Op::MirrorHorizontal]);
    assert!(edits.fits((4, 2)));
    assert!(!edits.fits((u32::MAX, 1)));
}
