//! The colours of the histogram, as RGBA bytes.

use vstd::prelude::*;

verus! {

/// By how much green and blue grow from one face to the next.
pub const GRADIENT_STEP: u8 = 9;

/// Dark gray: every pixel that is not part of a bar.
pub open spec fn background() -> Seq<u8> {
    seq![0x33u8, 0x33u8, 0x33u8, 0xffu8]
}

/// Bright green: the bar of the winning face.
pub open spec fn winner_colour() -> Seq<u8> {
    seq![0x33u8, 0xccu8, 0x33u8, 0xffu8]
}

/// Red: the bar of the losing face.
pub open spec fn loser_colour() -> Seq<u8> {
    seq![0xccu8, 0x33u8, 0x33u8, 0xffu8]
}

/// The colour of the face with index `face` in the gradient: no red, full
/// alpha, green and blue at nine times the face's value.
pub open spec fn face_colour(face: int) -> Seq<u8> {
    seq![0x00u8, (9 * (face + 1)) as u8, (9 * (face + 1)) as u8, 0xffu8]
}

/// `colors` is the gradient over the twenty faces.
pub open spec fn is_gradient(colors: Seq<[u8; 4]>) -> bool {
    &&& colors.len() == 20
    &&& forall|face: int| 0 <= face < 20 ==> (#[trigger] colors[face])@ == face_colour(face)
}

/// The background colour.
pub fn background_rgba() -> (rgba: [u8; 4])
    ensures
        rgba@ == background(),
{
    let rgba: [u8; 4] = [0x33, 0x33, 0x33, 0xff];
    assert(rgba@ =~= background());
    rgba
}

/// The colour of the winning face's bar.
pub fn winner_rgba() -> (rgba: [u8; 4])
    ensures
        rgba@ == winner_colour(),
{
    let rgba: [u8; 4] = [0x33, 0xcc, 0x33, 0xff];
    assert(rgba@ =~= winner_colour());
    rgba
}

/// The colour of the losing face's bar.
pub fn loser_rgba() -> (rgba: [u8; 4])
    ensures
        rgba@ == loser_colour(),
{
    let rgba: [u8; 4] = [0xcc, 0x33, 0x33, 0xff];
    assert(rgba@ =~= loser_colour());
    rgba
}

/// Builds the gradient, one step of green and blue per face.
pub fn gradient() -> (colors: [[u8; 4]; 20])
    ensures
        is_gradient(colors@),
{
    let mut colors: [[u8; 4]; 20] = [[0x00, 0x00, 0x00, 0xff]; 20];
    let mut shade: u8 = 0x00;
    let mut face: usize = 0;
    while face < 20
        invariant
            0 <= face <= 20,
            shade == GRADIENT_STEP * face,
            forall|done: int| 0 <= done < face ==> (#[trigger] colors[done])@ == face_colour(done),
        decreases 20 - face,
    {
        shade += GRADIENT_STEP;
        let rgba: [u8; 4] = [0x00, shade, shade, 0xff];
        assert(rgba@ =~= face_colour(face as int));
        colors[face] = rgba;
        face += 1;
    }
    colors
}

/// The four kinds of colour are told apart by their bytes: no colour of the
/// gradient is the background, the winner's or the loser's colour, and no
/// two faces share a colour.
pub proof fn lemma_colours_distinct(face: int, other: int)
    requires
        0 <= face < 20,
        0 <= other < 20,
    ensures
        face_colour(face) != background(),
        face_colour(face) != winner_colour(),
        face_colour(face) != loser_colour(),
        background() != winner_colour(),
        background() != loser_colour(),
        winner_colour() != loser_colour(),
        face_colour(face) == face_colour(other) ==> face == other,
{
    assert(face_colour(face)[0] == 0x00u8);
    assert(background()[0] == 0x33u8);
    assert(winner_colour()[0] == 0x33u8);
    assert(loser_colour()[0] == 0xccu8);
    assert(winner_colour()[1] == 0xccu8);
    assert(background()[1] == 0x33u8);
    assert(face_colour(face)[1] == 9 * (face + 1));
    assert(face_colour(other)[1] == 9 * (other + 1));
}

} // verus!
