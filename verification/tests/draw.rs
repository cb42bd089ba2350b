use d20_visualizer::raster::Shade;
use d20_visualizer::world::World;

const BACKGROUND: [u8; 4] = [0x33, 0x33, 0x33, 0xff];
const GREEN: [u8; 4] = [0x33, 0xcc, 0x33, 0xff];
const RED: [u8; 4] = [0xcc, 0x33, 0x33, 0xff];

fn pixel(frame: &[u8], width: usize, x: usize, row: usize) -> [u8; 4] {
    let at = (row * width + x) * 4;
    [frame[at], frame[at + 1], frame[at + 2], frame[at + 3]]
}

fn painted(world: &World) -> Vec<u8> {
    let mut frame = vec![0u8; 4 * world.width as usize * world.height as usize];
    world.draw(&mut frame);
    frame
}

#[test]
fn full_columns_show_the_gradient() {
    let mut world = World::new(400, 100);
    assert_eq!(world.column_width, 20);
    assert_eq!(world.offset, 0);
    world.roll_counts = [2000; 20];
    world.winning_roll_key = None;
    world.losing_roll_key = None;
    let frame = painted(&world);
    assert_eq!(frame.len(), 160_000);
    for row in 0..100usize {
        for x in 0..400usize {
            let face = x / 20;
            let shade = 9 * (face as u8 + 1);
            assert_eq!(pixel(&frame, 400, x, row), [0, shade, shade, 255]);
        }
    }
    // The top row of the first column holds the ranks 1981 to 2000.
    for x in 0..20usize {
        assert_eq!(pixel(&frame, 400, x, 0), [0x00, 0x09, 0x09, 0xff]);
    }
}

#[test]
fn one_count_short_leaves_the_last_pixel_dark() {
    let mut world = World::new(400, 100);
    world.roll_counts = [2000; 20];
    world.roll_counts[0] = 1999;
    let frame = painted(&world);
    assert_eq!(pixel(&frame, 400, 19, 0), BACKGROUND);
    assert_eq!(pixel(&frame, 400, 18, 0), [0x00, 0x09, 0x09, 0xff]);
    assert_eq!(pixel(&frame, 400, 19, 1), [0x00, 0x09, 0x09, 0xff]);
    assert_eq!(pixel(&frame, 400, 20, 0), [0x00, 0x12, 0x12, 0xff]);
}

#[test]
fn empty_histogram_is_all_background() {
    let world = World::new(400, 100);
    let frame = painted(&world);
    for at in 0..40_000usize {
        assert_eq!(&frame[4 * at..4 * at + 4], &BACKGROUND);
    }
}

#[test]
fn unrolled_face_has_no_bar() {
    let mut world = World::new(400, 100);
    world.roll_counts = [2000; 20];
    world.roll_counts[5] = 0;
    world.winning_roll_key = Some(5);
    world.losing_roll_key = Some(5);
    let frame = painted(&world);
    for row in 0..100usize {
        for x in 100..120usize {
            assert_eq!(pixel(&frame, 400, x, row), BACKGROUND);
        }
        assert_eq!(pixel(&frame, 400, 99, row), [0x00, 0x2d, 0x2d, 0xff]);
        assert_eq!(pixel(&frame, 400, 120, row), [0x00, 0x3f, 0x3f, 0xff]);
    }
}

#[test]
fn bars_grow_from_the_bottom_left() {
    // Columns two pixels wide on a canvas ten pixels high.
    let mut world = World::new(40, 10);
    assert_eq!(world.column_width, 2);
    world.roll_counts[0] = 3;
    let frame = painted(&world);
    let face0 = [0x00, 0x09, 0x09, 0xff];
    assert_eq!(pixel(&frame, 40, 0, 9), face0);
    assert_eq!(pixel(&frame, 40, 1, 9), face0);
    assert_eq!(pixel(&frame, 40, 0, 8), face0);
    assert_eq!(pixel(&frame, 40, 1, 8), BACKGROUND);
    assert_eq!(pixel(&frame, 40, 0, 7), BACKGROUND);
    assert_eq!(pixel(&frame, 40, 2, 9), BACKGROUND);
    let lit = (0..400usize).filter(|at| frame[4 * at..4 * at + 4] != BACKGROUND).count();
    assert_eq!(lit, 3);
}

#[test]
fn every_bar_covers_as_many_pixels_as_its_count() {
    let mut world = World::new(60, 8);
    assert_eq!(world.column_width, 3);
    for face in 0..20usize {
        world.roll_counts[face] = face as u64;
    }
    let frame = painted(&world);
    for face in 0..20usize {
        let mut lit = 0;
        for row in 0..8usize {
            for x in 3 * face..3 * face + 3 {
                if pixel(&frame, 60, x, row) != BACKGROUND {
                    lit += 1;
                }
            }
        }
        assert_eq!(lit, face);
    }
}

#[test]
fn a_count_above_the_capacity_fills_the_column() {
    let mut world = World::new(40, 10);
    world.roll_counts[4] = u64::MAX;
    let frame = painted(&world);
    for row in 0..10usize {
        assert_eq!(pixel(&frame, 40, 8, row), [0x00, 0x2d, 0x2d, 0xff]);
        assert_eq!(pixel(&frame, 40, 9, row), [0x00, 0x2d, 0x2d, 0xff]);
        assert_eq!(pixel(&frame, 40, 7, row), BACKGROUND);
        assert_eq!(pixel(&frame, 40, 10, row), BACKGROUND);
    }
}

#[test]
fn winner_is_green_and_loser_is_red() {
    let mut world = World::new(40, 10);
    world.roll_counts = [4; 20];
    world.winning_roll_key = Some(2);
    world.losing_roll_key = Some(19);
    let frame = painted(&world);
    assert_eq!(pixel(&frame, 40, 4, 9), GREEN);
    assert_eq!(pixel(&frame, 40, 5, 8), GREEN);
    assert_eq!(pixel(&frame, 40, 4, 7), BACKGROUND);
    assert_eq!(pixel(&frame, 40, 38, 9), RED);
    assert_eq!(pixel(&frame, 40, 39, 8), RED);
    assert_eq!(pixel(&frame, 40, 39, 7), BACKGROUND);
    assert_eq!(pixel(&frame, 40, 0, 9), [0x00, 0x09, 0x09, 0xff]);
    assert_eq!(pixel(&frame, 40, 36, 9), [0x00, 0xab, 0xab, 0xff]);
}

#[test]
fn winner_goes_before_loser_on_one_face() {
    let mut world = World::new(40, 10);
    world.roll_counts = [4; 20];
    world.winning_roll_key = Some(0);
    world.losing_roll_key = Some(0);
    let frame = painted(&world);
    assert_eq!(pixel(&frame, 40, 0, 9), GREEN);
    assert_eq!(pixel(&frame, 40, 1, 8), GREEN);
}

#[test]
fn a_ranked_face_out_of_range_colours_nothing() {
    let mut world = World::new(40, 10);
    world.roll_counts = [20; 20];
    world.winning_roll_key = Some(20);
    world.losing_roll_key = Some(usize::MAX);
    let frame = painted(&world);
    for row in 0..10usize {
        for x in 0..40usize {
            let shade = 9 * ((x / 2) as u8 + 1);
            assert_eq!(pixel(&frame, 40, x, row), [0, shade, shade, 255]);
        }
    }
}

#[test]
fn margins_stay_dark() {
    let mut world = World::new(45, 4);
    assert_eq!(world.column_width, 2);
    assert_eq!(world.offset, 2);
    world.roll_counts = [8; 20];
    let frame = painted(&world);
    for row in 0..4usize {
        assert_eq!(pixel(&frame, 45, 0, row), BACKGROUND);
        assert_eq!(pixel(&frame, 45, 1, row), BACKGROUND);
        assert_eq!(pixel(&frame, 45, 2, row), [0x00, 0x09, 0x09, 0xff]);
        assert_eq!(pixel(&frame, 45, 3, row), [0x00, 0x09, 0x09, 0xff]);
        assert_eq!(pixel(&frame, 45, 4, row), [0x00, 0x12, 0x12, 0xff]);
        assert_eq!(pixel(&frame, 45, 41, row), [0x00, 0xb4, 0xb4, 0xff]);
        assert_eq!(pixel(&frame, 45, 42, row), BACKGROUND);
        assert_eq!(pixel(&frame, 45, 43, row), BACKGROUND);
        assert_eq!(pixel(&frame, 45, 44, row), BACKGROUND);
    }
}

#[test]
fn a_canvas_too_narrow_for_columns_is_all_background() {
    let mut world = World::new(19, 3);
    assert_eq!(world.column_width, 0);
    world.roll_counts = [1000; 20];
    world.winning_roll_key = Some(0);
    let frame = painted(&world);
    assert_eq!(frame.len(), 4 * 19 * 3);
    for at in 0..57usize {
        assert_eq!(&frame[4 * at..4 * at + 4], &BACKGROUND);
    }
}

#[test]
fn an_empty_canvas_has_an_empty_frame() {
    let world = World::new(0, 0);
    let mut frame: Vec<u8> = Vec::new();
    world.draw(&mut frame);
    assert!(frame.is_empty());
    let flat = World::new(400, 0);
    flat.draw(&mut frame);
    assert!(frame.is_empty());
}

#[test]
fn draw_overwrites_whatever_the_frame_held() {
    let mut world = World::new(60, 8);
    world.update_with(&[1, 1, 1, 5, 5, 9, 20, 20, 20, 20]);
    let mut first = vec![0x00u8; 4 * 60 * 8];
    let mut second = vec![0xa7u8; 4 * 60 * 8];
    world.draw(&mut first);
    world.draw(&mut second);
    assert_eq!(first, second);
}

#[test]
fn draw_twice_changes_nothing() {
    let mut world = World::new(400, 100);
    world.update();
    let mut frame = vec![0u8; 160_000];
    world.draw(&mut frame);
    let once = frame.clone();
    world.draw(&mut frame);
    assert_eq!(frame, once);
}

#[test]
fn draw_leaves_the_histogram_alone() {
    let mut world = World::new(400, 100);
    world.update();
    let counts = world.roll_counts;
    let ranked = (world.winning_roll_key, world.losing_roll_key);
    let _ = painted(&world);
    assert_eq!(world.roll_counts, counts);
    assert_eq!((world.winning_roll_key, world.losing_roll_key), ranked);
}

#[test]
fn every_pixel_has_one_of_the_known_colours() {
    let mut world = World::new(417, 50);
    world.update();
    let frame = painted(&world);
    for at in 0..417 * 50usize {
        let rgba = [frame[4 * at], frame[4 * at + 1], frame[4 * at + 2], frame[4 * at + 3]];
        let kinds = [
            rgba == BACKGROUND,
            rgba == GREEN,
            rgba == RED,
            world.colors.iter().any(|colour| *colour == rgba),
        ];
        assert_eq!(kinds.iter().filter(|kind| **kind).count(), 1);
    }
}

#[test]
fn shade_of_pixel_names_what_a_pixel_shows() {
    let mut world = World::new(45, 4);
    world.roll_counts = [3; 20];
    world.winning_roll_key = Some(1);
    world.losing_roll_key = Some(2);
    // Bottom row: the pixels 135 to 179.
    assert_eq!(world.shade_of_pixel(135), Shade::Background);
    assert_eq!(world.shade_of_pixel(137), Shade::Face(0));
    assert_eq!(world.shade_of_pixel(139), Shade::Winner);
    assert_eq!(world.shade_of_pixel(141), Shade::Loser);
    assert_eq!(world.shade_of_pixel(143), Shade::Face(3));
    assert_eq!(world.shade_of_pixel(176), Shade::Face(19));
    assert_eq!(world.shade_of_pixel(177), Shade::Background);
    // One row up the third count is at the left, the fourth is missing.
    assert_eq!(world.shade_of_pixel(90 + 2), Shade::Face(0));
    assert_eq!(world.shade_of_pixel(90 + 3), Shade::Background);
    assert_eq!(world.shade_of_pixel(0), Shade::Background);
}

#[test]
fn rgba_gives_the_bytes_of_a_shade() {
    let world = World::new(400, 100);
    assert_eq!(world.rgba(Shade::Background), BACKGROUND);
    assert_eq!(world.rgba(Shade::Winner), GREEN);
    assert_eq!(world.rgba(Shade::Loser), RED);
    assert_eq!(world.rgba(Shade::Face(0)), [0x00, 0x09, 0x09, 0xff]);
    assert_eq!(world.rgba(Shade::Face(19)), [0x00, 0xb4, 0xb4, 0xff]);
}
