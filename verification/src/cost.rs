//! The cost of a trial: how far the spectrogram synthesised from the
//! candidate notes at trial volumes is from the observed one.

use crate::distance::{
    bin_count, calculate_symetric_distance, is_measurable, measurable, symmetric_distance,
    VOLUME_UNIT,
};
use crate::note::{notes_with_volumes, with_volumes, CachedInstruments, Note};
use vstd::prelude::*;
use vstd::slice::slice_subrange;

verus! {

/// The first `hops` frames of a grid, or all of it where it has fewer.
pub open spec fn leading(grid: Seq<Seq<u16>>, hops: nat) -> Seq<Seq<u16>> {
    if hops <= grid.len() {
        grid.take(hops as int)
    } else {
        grid
    }
}

/// The cost function of a fit: the library that the notes are synthesised
/// from, the gain at which their mixture is synthesised, the observation, the
/// candidate notes whose volumes are fitted, and the number of frames that
/// are compared.
#[derive(Debug)]
pub struct Opti<'a> {
    pub cache: &'a CachedInstruments,
    pub multiplier: i32,
    pub song_part: &'a [Vec<u16>],
    pub found_notes: Vec<Note>,
    pub hops_to_compare: usize,
}

impl<'a> Opti<'a> {
    /// The cost of a synthesised spectrogram: its absolute distance at unit
    /// volume from the observation, over the frames that are compared.
    pub open spec fn cost_of(&self, synthesized: Seq<Seq<u16>>) -> int {
        symmetric_distance(
            leading(self.song_part.deep_view(), self.hops_to_compare as nat),
            leading(synthesized, self.hops_to_compare as nat),
            VOLUME_UNIT as int,
        )
    }

    /// The synthesised spectrogram can be held against the observation: over
    /// the frames that are compared both are measurable and equally wide.
    pub open spec fn comparable(&self, synthesized: Seq<Seq<u16>>) -> bool {
        let seen = leading(self.song_part.deep_view(), self.hops_to_compare as nat);
        let made = leading(synthesized, self.hops_to_compare as nat);
        measurable(seen) && measurable(made) && bin_count(seen) == bin_count(made)
    }

    /// The candidate notes at the volumes of one trial, index by index.
    pub fn trial_notes(&self, parameter_vector: &[i32]) -> (notes: Vec<Note>)
        requires
            parameter_vector@.len() == self.found_notes@.len(),
        ensures
            notes@ == with_volumes(self.found_notes@, parameter_vector@),
    {
        notes_with_volumes(self.found_notes.as_slice(), parameter_vector)
    }

    /// Tells whether `cost` accepts the synthesised spectrogram.
    pub fn accepts(&self, synthesized: &[Vec<u16>]) -> (ok: bool)
        ensures
            ok == self.comparable(synthesized.deep_view()),
    {
        let seen = first_frames(self.song_part, self.hops_to_compare);
        let made = first_frames(synthesized, self.hops_to_compare);
        if !is_measurable(seen) || !is_measurable(made) {
            return false;
        }
        assert(seen.deep_view()[0] == seen@[0]@);
        assert(made.deep_view()[0] == made@[0]@);
        seen[0].len() == made[0].len()
    }

    /// The cost of one trial, given the spectrogram that was synthesised from
    /// its notes.
    pub fn cost(&self, synthesized: &[Vec<u16>]) -> (cost: u128)
        requires
            self.comparable(synthesized.deep_view()),
        ensures
            cost == self.cost_of(synthesized.deep_view()),
    {
        let seen = first_frames(self.song_part, self.hops_to_compare);
        let made = first_frames(synthesized, self.hops_to_compare);
        calculate_symetric_distance(seen, made, VOLUME_UNIT)
    }
}

/// The first `hops` frames of a grid, or all of it where it has fewer.
fn first_frames<'b>(grid: &'b [Vec<u16>], hops: usize) -> (cut: &'b [Vec<u16>])
    ensures
        cut.deep_view() == leading(grid.deep_view(), hops as nat),
{
    if hops <= grid.len() {
        let cut = slice_subrange(grid, 0, hops);
        assert(cut.deep_view() =~= grid.deep_view().take(hops as int));
        cut
    } else {
        grid
    }
}

} // verus!
