//! Notes and the library of reference spectrograms.

use crate::distance::{is_measurable, measurable};
use vstd::prelude::*;
use vstd::slice::slice_to_vec;

verus! {

/// A note: which instrument plays which pitch, and how loud, in millionths.
#[derive(Clone, Copy, Debug, PartialEq, Eq, Structural)]
pub struct Note {
    pub instrument_id: usize,
    pub pitch: usize,
    pub volume: i32,
}

/// The reference spectrograms, one grid for each instrument and pitch,
/// together with the two counts that the library was built for.
#[derive(Debug)]
pub struct CachedInstruments {
    pub instrument_count: usize,
    pub pitch_count: usize,
    pub spectrograms: Vec<Vec<Vec<Vec<u16>>>>,
}

impl View for CachedInstruments {
    type V = Seq<Seq<Seq<Seq<u16>>>>;

    /// The grids, by instrument and then by pitch.
    open spec fn view(&self) -> Seq<Seq<Seq<Seq<u16>>>> {
        self.spectrograms.deep_view()
    }
}

/// Every instrument of the library has `pitches` grids, and each of them can
/// be measured.
pub open spec fn populated(library: Seq<Seq<Seq<Seq<u16>>>>, pitches: nat) -> bool {
    &&& forall|i: int| 0 <= i < library.len() ==> (#[trigger] library[i]).len() == pitches
    &&& forall|i: int, p: int|
        0 <= i < library.len() && 0 <= p < library[i].len() ==> measurable(
            #[trigger] library[i][p],
        )
}

/// The notes with their volumes replaced, one for one, by `volumes`: which
/// instrument plays which pitch stays as it was.
pub open spec fn with_volumes(notes: Seq<Note>, volumes: Seq<i32>) -> Seq<Note> {
    Seq::new(
        notes.len(),
        |i: int|
            Note {
                instrument_id: notes[i].instrument_id,
                pitch: notes[i].pitch,
                volume: volumes[i],
            },
    )
}

/// Copies the notes and gives each the volume at its index.
pub fn notes_with_volumes(found_notes: &[Note], found_positions: &[i32]) -> (owned_notes: Vec<Note>)
    requires
        found_positions@.len() == found_notes@.len(),
    ensures
        owned_notes@ == with_volumes(found_notes@, found_positions@),
{
    let mut owned_notes: Vec<Note> = slice_to_vec(found_notes);
    let mut i: usize = 0;
    while i < owned_notes.len()
        invariant
            found_positions@.len() == found_notes@.len(),
            owned_notes@.len() == found_notes@.len(),
            i <= owned_notes@.len(),
            forall|j: int| 0 <= j < i ==> owned_notes@[j] == with_volumes(
                found_notes@,
                found_positions@,
            )[j],
            forall|j: int| i <= j < owned_notes@.len() ==> owned_notes@[j] == found_notes@[j],
        decreases owned_notes@.len() - i,
    {
        owned_notes[i].volume = found_positions[i];
        i = i + 1;
    }
    assert(owned_notes@ =~= with_volumes(found_notes@, found_positions@));
    owned_notes
}

impl CachedInstruments {
    /// The library holds a measurable grid for every instrument below
    /// `instrument_count` and every pitch below `pitch_count`, and no other.
    pub open spec fn well_formed(&self) -> bool {
        &&& self@.len() == self.instrument_count
        &&& populated(self@, self.pitch_count as nat)
    }

    /// Makes a library of the grids, where they are what the two counts
    /// announce: `instrument_count` rows of `pitch_count` measurable grids.
    pub fn new(
        instrument_count: usize,
        pitch_count: usize,
        spectrograms: Vec<Vec<Vec<Vec<u16>>>>,
    ) -> (cache: Option<CachedInstruments>)
        ensures
            cache is Some <==> spectrograms.deep_view().len() == instrument_count && populated(
                spectrograms.deep_view(),
                pitch_count as nat,
            ),
            cache matches Some(made) ==> made.well_formed() && made.instrument_count
                == instrument_count && made.pitch_count == pitch_count && made.spectrograms
                == spectrograms,
    {
        let ghost library = spectrograms.deep_view();
        if spectrograms.len() != instrument_count {
            return None;
        }
        let mut i: usize = 0;
        while i < instrument_count
            invariant
                library == spectrograms.deep_view(),
                library.len() == instrument_count,
                i <= instrument_count,
                forall|k: int| 0 <= k < i ==> (#[trigger] library[k]).len() == pitch_count,
                forall|k: int, p: int|
                    0 <= k < i && 0 <= p < library[k].len() ==> measurable(
                        #[trigger] library[k][p],
                    ),
            decreases instrument_count - i,
        {
            assert(library[i as int] == spectrograms@[i as int].deep_view());
            if spectrograms[i].len() != pitch_count {
                return None;
            }
            let mut pitch: usize = 0;
            while pitch < pitch_count
                invariant
                    library == spectrograms.deep_view(),
                    library.len() == instrument_count,
                    i < instrument_count,
                    library[i as int] == spectrograms@[i as int].deep_view(),
                    library[i as int].len() == pitch_count,
                    pitch <= pitch_count,
                    forall|p: int| 0 <= p < pitch ==> measurable(#[trigger] library[i as int][p]),
                decreases pitch_count - pitch,
            {
                let ghost row = spectrograms@[i as int]@;
                assert(library[i as int][pitch as int] == row[pitch as int].deep_view());
                let grid = spectrograms[i][pitch].as_slice();
                assert(grid.deep_view() =~= library[i as int][pitch as int]);
                if !is_measurable(grid) {
                    return None;
                }
                pitch = pitch + 1;
            }
            i = i + 1;
        }
        Some(CachedInstruments { instrument_count, pitch_count, spectrograms })
    }
}

} // verus!
