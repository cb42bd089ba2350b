use d20_visualizer::layout::{column_of, column_width, left_margin, FACES};
use d20_visualizer::palette::{background_rgba, gradient, loser_rgba, winner_rgba};
use d20_visualizer::world::World;

#[test]
fn new_world_starts_empty() {
    let world = World::new(400, 100);
    assert_eq!(world.roll_counts, [0u64; 20]);
    assert_eq!(world.winning_roll_key, None);
    assert_eq!(world.losing_roll_key, None);
    assert_eq!(world.width, 400);
    assert_eq!(world.height, 100);
    assert_eq!(world.column_width, 20);
    assert_eq!(world.offset, 0);
}

#[test]
fn columns_are_a_twentieth_of_the_width() {
    assert_eq!(FACES, 20);
    assert_eq!(column_width(400), 20);
    assert_eq!(column_width(419), 20);
    assert_eq!(column_width(420), 21);
    assert_eq!(column_width(20), 1);
    assert_eq!(column_width(19), 0);
    assert_eq!(column_width(0), 0);
    assert_eq!(column_width(u32::MAX), 214_748_364);
}

#[test]
fn margin_is_half_of_the_remainder() {
    assert_eq!(left_margin(400), 0);
    assert_eq!(left_margin(401), 0);
    assert_eq!(left_margin(402), 1);
    assert_eq!(left_margin(410), 5);
    assert_eq!(left_margin(419), 9);
    assert_eq!(left_margin(19), 9);
    assert_eq!(left_margin(0), 0);
    assert_eq!(left_margin(u32::MAX), 7);
}

#[test]
fn columns_and_margin_fit_on_every_width() {
    for width in 0u32..2000 {
        let cw = column_width(width);
        let margin = left_margin(width);
        assert!(margin + cw * 20 <= width, "width {}", width);
    }
}

#[test]
fn margin_is_narrower_than_a_column_from_width_200() {
    for width in 200u32..3000 {
        assert!(left_margin(width) < column_width(width), "width {}", width);
    }
}

#[test]
fn margin_below_width_200_follows_the_remainder() {
    for width in 20u32..200 {
        let narrower = left_margin(width) < column_width(width);
        assert_eq!(narrower, width % 20 < 2 * (width / 20), "width {}", width);
    }
    // One column pixel, nineteen left over: the margin is nine pixels wide.
    assert_eq!(column_width(39), 1);
    assert_eq!(left_margin(39), 9);
}

#[test]
fn set_size_recomputes_the_layout_and_keeps_the_rest() {
    let mut world = World::new(400, 100);
    world.roll_counts[4] = 77;
    world.winning_roll_key = Some(4);
    world.losing_roll_key = Some(0);
    let colors = world.colors;
    world.set_size(1030, 7);
    assert_eq!(world.width, 1030);
    assert_eq!(world.height, 7);
    assert_eq!(world.column_width, 51);
    assert_eq!(world.offset, 5);
    assert_eq!(world.roll_counts[4], 77);
    assert_eq!(world.winning_roll_key, Some(4));
    assert_eq!(world.losing_roll_key, Some(0));
    assert_eq!(world.colors, colors);
}

#[test]
fn set_size_is_idempotent() {
    let mut world = World::new(640, 480);
    world.set_size(815, 333);
    let once = (world.width, world.height, world.column_width, world.offset);
    world.set_size(815, 333);
    let twice = (world.width, world.height, world.column_width, world.offset);
    assert_eq!(once, twice);
    assert_eq!(once, (815, 333, 40, 7));
}

#[test]
fn set_size_accepts_a_canvas_too_narrow_for_columns() {
    let mut world = World::new(400, 100);
    world.set_size(7, 3);
    assert_eq!(world.column_width, 0);
    assert_eq!(world.offset, 3);
    world.set_size(0, 0);
    assert_eq!(world.column_width, 0);
    assert_eq!(world.offset, 0);
}

#[test]
fn column_of_finds_the_face_under_a_position() {
    // Columns of 20 pixels behind a margin of 5.
    assert_eq!(column_of(5, 20, 0), None);
    assert_eq!(column_of(5, 20, 4), None);
    assert_eq!(column_of(5, 20, 5), Some(0));
    assert_eq!(column_of(5, 20, 24), Some(0));
    assert_eq!(column_of(5, 20, 25), Some(1));
    assert_eq!(column_of(5, 20, 404), Some(19));
    assert_eq!(column_of(5, 20, 405), None);
    assert_eq!(column_of(5, 20, 409), None);
}

#[test]
fn column_of_finds_nothing_without_columns() {
    assert_eq!(column_of(3, 0, 0), None);
    assert_eq!(column_of(3, 0, 3), None);
    assert_eq!(column_of(3, 0, 6), None);
}

#[test]
fn gradient_steps_by_nine() {
    let colors = gradient();
    for face in 0..20usize {
        let shade = 9 * (face as u8 + 1);
        assert_eq!(colors[face], [0, shade, shade, 255]);
    }
    assert_eq!(colors[0], [0x00, 0x09, 0x09, 0xff]);
    assert_eq!(colors[19], [0x00, 0xb4, 0xb4, 0xff]);
    assert_eq!(World::new(400, 100).colors, colors);
}

#[test]
fn fixed_colours() {
    assert_eq!(background_rgba(), [0x33, 0x33, 0x33, 0xff]);
    assert_eq!(winner_rgba(), [0x33, 0xcc, 0x33, 0xff]);
    assert_eq!(loser_rgba(), [0xcc, 0x33, 0x33, 0xff]);
}
