//! Painting the histogram into a frame of RGBA pixels.
//!
//! The frame holds four bytes per pixel, row by row from the top. Bars grow
//! from the bottom, so a pixel's height above the ground is counted from the
//! last row of the frame. Within its column every pixel has a rank: the
//! pixels of the lowest row come first, left to right, then those of the row
//! above. A bar covers the pixels whose rank does not exceed the counter.

use crate::layout::{column_at, column_of, lemma_column_in_range};
use crate::palette::{
    background, background_rgba, face_colour, lemma_colours_distinct, loser_colour, loser_rgba,
    winner_colour, winner_rgba,
};
use crate::world::World;
use vstd::prelude::*;

verus! {

/// What a pixel shows.
#[derive(Clone, Copy, Debug, PartialEq, Eq, Structural)]
pub enum Shade {
    /// No bar covers the pixel.
    Background,
    /// The bar of the winning face.
    Winner,
    /// The bar of the losing face.
    Loser,
    /// The bar of the face with this index, which neither wins nor loses.
    Face(usize),
}

/// The rank within its column of the pixel `bar_x` pixels right of the
/// column's left edge and `y` rows above the ground.
pub open spec fn pixel_rank(column_width: int, y: int, bar_x: int) -> int {
    y * column_width + bar_x + 1
}

impl World {
    /// Number of pixels on the canvas.
    pub open spec fn pixels(&self) -> int {
        self.width as int * self.height as int
    }

    /// Horizontal position of the pixel with index `i`, from the left.
    pub open spec fn pixel_x(&self, i: int) -> int {
        i % (self.width as int)
    }

    /// Height of the pixel with index `i` above the ground.
    pub open spec fn pixel_y(&self, i: int) -> int {
        self.height - 1 - i / (self.width as int)
    }

    /// The face whose column holds the pixel with index `i`, if any.
    pub open spec fn face_at(&self, i: int) -> Option<int> {
        column_at(self.offset as int, self.column_width as int, self.pixel_x(i))
    }

    /// Whether the pixel with index `i` is part of a bar.
    pub open spec fn highlighted(&self, i: int) -> bool {
        match self.face_at(i) {
            Some(face) => pixel_rank(
                self.column_width as int,
                self.pixel_y(i),
                self.pixel_x(i) - self.offset - face * self.column_width,
            ) <= self.roll_counts[face],
            None => false,
        }
    }

    /// What the pixel with index `i` shows. The winner's colour goes before
    /// the loser's where one face is both.
    pub open spec fn shade_at(&self, i: int) -> Shade {
        if !self.highlighted(i) {
            Shade::Background
        } else {
            let face = self.face_at(i).unwrap() as usize;
            if self.winning_roll_key == Some(face) {
                Shade::Winner
            } else if self.losing_roll_key == Some(face) {
                Shade::Loser
            } else {
                Shade::Face(face)
            }
        }
    }

    /// The four bytes of a shade.
    pub open spec fn colour_of(&self, shade: Shade) -> Seq<u8> {
        match shade {
            Shade::Background => background(),
            Shade::Winner => winner_colour(),
            Shade::Loser => loser_colour(),
            Shade::Face(face) => self.colors[face as int]@,
        }
    }

    /// The frame that shows the histogram: for every pixel the four bytes of
    /// its shade.
    pub open spec fn rendered(&self) -> Seq<u8> {
        Seq::new((4 * self.pixels()) as nat, |k: int| self.colour_of(self.shade_at(k / 4))[k % 4])
    }

    /// Finds what the pixel with index `i` shows.
    pub fn shade_of_pixel(&self, i: usize) -> (shade: Shade)
        requires
            i < self.pixels(),
        ensures
            shade == self.shade_at(i as int),
            shade matches Shade::Face(face) ==> face < 20,
    {
        proof {
            lemma_pixel_on_canvas(self.width as int, self.height as int, i as int);
        }
        let total_x: u32 = (i as u64 % self.width as u64) as u32;
        let y: u64 = self.height as u64 - 1 - i as u64 / self.width as u64;
        match column_of(self.offset, self.column_width, total_x) {
            Some(face) => {
                proof {
                    lemma_column_in_range(
                        self.offset as int,
                        self.column_width as int,
                        total_x as int,
                    );
                    lemma_rank_fits(y as int, self.column_width as int);
                }
                let roll_x: u64 = (total_x - self.offset) as u64 - face as u64
                    * self.column_width as u64;
                let value: u64 = y * self.column_width as u64 + roll_x + 1;
                if value <= self.roll_counts[face] {
                    if self.winning_roll_key == Some(face) {
                        Shade::Winner
                    } else if self.losing_roll_key == Some(face) {
                        Shade::Loser
                    } else {
                        Shade::Face(face)
                    }
                } else {
                    Shade::Background
                }
            },
            None => Shade::Background,
        }
    }

    /// The four bytes of a shade.
    pub fn rgba(&self, shade: Shade) -> (rgba: [u8; 4])
        requires
            shade matches Shade::Face(face) ==> face < 20,
        ensures
            rgba@ == self.colour_of(shade),
    {
        match shade {
            Shade::Background => background_rgba(),
            Shade::Winner => winner_rgba(),
            Shade::Loser => loser_rgba(),
            Shade::Face(face) => self.colors[face],
        }
    }

    /// Paints the histogram into `frame`, which must hold four bytes for
    /// every pixel of the canvas.
    pub fn draw(&self, frame: &mut [u8])
        requires
            old(frame)@.len() == 4 * self.pixels(),
        ensures
            final(frame)@ == self.rendered(),
    {
        let pixels: usize = frame.len() / 4;
        let mut i: usize = 0;
        while i < pixels
            invariant
                0 <= i <= pixels,
                pixels == self.pixels(),
                frame@.len() == 4 * pixels,
                4 * pixels <= usize::MAX,
                forall|k: int| 0 <= k < 4 * i ==> frame@[k] == #[trigger] self.rendered()[k],
            decreases pixels - i,
        {
            let rgba = self.rgba(self.shade_of_pixel(i));
            let at: usize = i * 4;
            frame[at] = rgba[0];
            frame[at + 1] = rgba[1];
            frame[at + 2] = rgba[2];
            frame[at + 3] = rgba[3];
            i += 1;
        }
        assert(frame@ =~= self.rendered());
    }
}

/// Exactly one of four statements holds.
pub open spec fn exactly_one(a: bool, b: bool, c: bool, d: bool) -> bool {
    &&& a || b || c || d
    &&& !(a && b) && !(a && c) && !(a && d)
    &&& !(b && c) && !(b && d)
    &&& !(c && d)
}

/// The bytes of `frame` that belong to the pixel with index `i`.
pub open spec fn pixel_bytes(frame: Seq<u8>, i: int) -> Seq<u8> {
    frame.subrange(4 * i, 4 * i + 4)
}

/// Every pixel of the painted frame holds the colour of its shade, and that
/// colour is exactly one of four: the background, the winner's colour, the
/// loser's colour, or a colour of the gradient.
pub proof fn lemma_pixel_has_one_colour(world: &World, i: int)
    requires
        world.wf(),
        0 <= i < world.pixels(),
    ensures
        pixel_bytes(world.rendered(), i) == world.colour_of(world.shade_at(i)),
        exactly_one(
            pixel_bytes(world.rendered(), i) == background(),
            pixel_bytes(world.rendered(), i) == winner_colour(),
            pixel_bytes(world.rendered(), i) == loser_colour(),
            exists|face: int|
                0 <= face < 20 && pixel_bytes(world.rendered(), i) == #[trigger] face_colour(face),
        ),
{
    let bytes = pixel_bytes(world.rendered(), i);
    let shade = world.shade_at(i);
    let colour = world.colour_of(shade);
    assert(4 * i + 4 <= 4 * world.pixels());
    assert(world.colors@.len() == 20);
    lemma_shade_in_range(world, i);
    match shade {
        Shade::Face(face) => {
            assert(world.colors@[face as int]@ == face_colour(face as int));
        },
        _ => {},
    }
    assert(colour.len() == 4);
    assert forall|k: int| 0 <= k < 4 implies bytes[k] == colour[k] by {
        assert((4 * i + k) / 4 == i);
        assert((4 * i + k) % 4 == k);
    }
    assert(bytes =~= colour);
    assert forall|face: int| 0 <= face < 20 implies face_colour(face) != background()
        && face_colour(face) != winner_colour() && face_colour(face) != loser_colour() by {
        lemma_colours_distinct(face, face);
    }
    lemma_colours_distinct(0, 0);
}

/// A shade that names a face names one of the twenty, and it is the face
/// whose column holds the pixel.
pub proof fn lemma_shade_in_range(world: &World, i: int)
    requires
        0 <= i < world.pixels(),
    ensures
        world.shade_at(i) matches Shade::Face(face) ==> face < 20 && world.face_at(i) == Some(
            face as int,
        ),
{
    if world.highlighted(i) {
        lemma_pixel_on_canvas(world.width as int, world.height as int, i);
        lemma_column_in_range(world.offset as int, world.column_width as int, world.pixel_x(i));
    }
}

/// The painted frame depends on the histogram alone: whatever two frames
/// held before, after `draw` on the same histogram they hold the same
/// bytes, and so painting a second time changes nothing.
pub proof fn lemma_draw_idempotent(world: &World, once: Seq<u8>, twice: Seq<u8>)
    requires
        once == world.rendered(),
        twice == world.rendered(),
    ensures
        once == twice,
        once.len() == 4 * world.pixels(),
{
}

/// A face that was never rolled has no bar: every pixel of its column shows
/// the background.
pub proof fn lemma_unrolled_face_has_no_bar(world: &World, i: int)
    requires
        0 <= i < world.pixels(),
        world.face_at(i).is_some(),
        world.roll_counts[world.face_at(i).unwrap()] == 0,
    ensures
        world.shade_at(i) == Shade::Background,
        pixel_bytes(world.rendered(), i) == background(),
{
    lemma_pixel_on_canvas(world.width as int, world.height as int, i);
    lemma_column_in_range(world.offset as int, world.column_width as int, world.pixel_x(i));
    let face = world.face_at(i).unwrap();
    let y = world.pixel_y(i);
    let bar_x = world.pixel_x(i) - world.offset - face * world.column_width;
    assert(y * world.column_width >= 0) by (nonlinear_arith)
        requires
            y >= 0,
            world.column_width >= 0,
    ;
    assert(pixel_rank(world.column_width as int, y, bar_x) >= 1);
    let bytes = pixel_bytes(world.rendered(), i);
    assert forall|k: int| 0 <= k < 4 implies bytes[k] == background()[k] by {
        assert((4 * i + k) / 4 == i);
        assert((4 * i + k) % 4 == k);
    }
    assert(bytes =~= background());
}

/// A pixel outside the twenty columns shows the background.
pub proof fn lemma_margin_is_background(world: &World, i: int)
    requires
        0 <= i < world.pixels(),
        world.face_at(i).is_none(),
    ensures
        world.shade_at(i) == Shade::Background,
{
}

/// The rank of a pixel fits in 64 bits.
proof fn lemma_rank_fits(y: int, column_width: int)
    requires
        0 <= y <= u32::MAX,
        0 <= column_width <= u32::MAX,
    ensures
        0 <= y * column_width <= 0xffff_ffff * 0xffff_ffff,
{
    assert(0 <= y * column_width <= 0xffff_ffff * 0xffff_ffff) by (nonlinear_arith)
        requires
            0 <= y <= 0xffff_ffff,
            0 <= column_width <= 0xffff_ffff,
    ;
}

/// The pixel with index `i` of a canvas lies in one of its columns and rows.
pub proof fn lemma_pixel_on_canvas(width: int, height: int, i: int)
    requires
        0 <= width,
        0 <= height,
        0 <= i < width * height,
    ensures
        0 < width,
        0 <= i % width < width,
        0 <= i / width < height,
{
    assert(width > 0) by (nonlinear_arith)
        requires
            0 <= width,
            0 <= i < width * height,
    ;
    vstd::arithmetic::div_mod::lemma_fundamental_div_mod(i, width);
    vstd::arithmetic::div_mod::lemma_mod_bound(i, width);
    let row = i / width;
    assert(0 <= row < height) by (nonlinear_arith)
        requires
            i == width * row + i % width,
            0 <= i % width < width,
            0 <= i < width * height,
            width > 0,
    ;
}

} // verus!
