//! The fixed map from a pitch offset in semitones to the directory index
//! of its audio rendition. The map must never change between releases, or
//! cached artifacts would mis-route audio URLs.

use vstd::prelude::*;

verus! {

/// The directory index of the rendition for a pitch offset:
/// the zero-pitch rendition is index 1, positive offsets follow it,
/// negative offsets come after. Offsets outside [-3, +3] fall back to 1.
pub open spec fn spec_semitone_index(semitones: int) -> int {
    if semitones == 0 {
        1
    } else if semitones == 1 {
        2
    } else if semitones == 2 {
        3
    } else if semitones == 3 {
        4
    } else if semitones == -1 {
        5
    } else if semitones == -2 {
        6
    } else if semitones == -3 {
        7
    } else {
        1
    }
}

/// Directory index of the audio rendition for a semitone offset.
pub fn semitone_to_index(semitones: i8) -> (index: u8)
    ensures
        index == spec_semitone_index(semitones as int),
        1 <= index <= 7,
{
    match semitones {
        0 => 1,
        1 => 2,
        2 => 3,
        3 => 4,
        -1 => 5,
        -2 => 6,
        -3 => 7,
        _ => 1,
    }
}

/// The semitone offset whose rendition lives at a directory index.
pub fn index_to_semitone(index: u8) -> (semitones: i8)
    requires
        1 <= index <= 7,
    ensures
        spec_semitone_index(semitones as int) == index,
        -3 <= semitones <= 3,
{
    match index {
        1 => 0,
        2 => 1,
        3 => 2,
        4 => 3,
        5 => -1,
        6 => -2,
        _ => -3,
    }
}

/// The index map is injective on the offsets it serves: distinct offsets
/// in [-3, +3] are stored under distinct directory indices.
pub proof fn lemma_semitone_index_injective(a: int, b: int)
    requires
        -3 <= a <= 3,
        -3 <= b <= 3,
        a != b,
    ensures
        spec_semitone_index(a) != spec_semitone_index(b),
{
}

} // verus!
