//! Note detection on spectrogram slices.
//!
//! An observed slice of a spectrogram is compared against a library of
//! reference spectrograms, one per instrument and pitch. References that the
//! observation does not contradict become candidate notes, and a numerical
//! solver then fits the volume of each candidate.
//!
//! Everything here works on exact integers. Magnitudes are quantised to `u16`
//! levels and volumes are counted in millionths of full volume, so every
//! distance is an exact integer as well. The solver works on floating point
//! and runs outside this crate: the crate says when it runs and on what, and
//! what becomes of its answer.
//!
//! - `distance`: the asymmetric and the absolute distance between two grids.
//! - `note`: notes and the library of references.
//! - `search`: the candidate notes of an observation.
//! - `cost`: the cost of a trial of volumes.
//! - `optimize`: the set-up of the solver and the way from a spectrogram to
//!   its notes.

pub mod cost;
pub mod distance;
pub mod note;
pub mod optimize;
pub mod search;
