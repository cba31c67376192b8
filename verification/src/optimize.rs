//! Fitting the volumes of candidate notes: what the solver is started with,
//! and what becomes of its answer.
//!
//! The solver itself runs outside this crate. The functions here decide
//! whether it runs at all, on which cost function and from which starting
//! points, and turn the parameters it found into notes.

use crate::cost::Opti;
use crate::distance::VOLUME_UNIT;
use crate::note::{notes_with_volumes, with_volumes, CachedInstruments, Note};
use crate::search::{candidates, searchable, test_distances_for_instruments, SEARCH_FRAMES};
use vstd::prelude::*;
use vstd::slice::{slice_subrange, slice_to_vec};

verus! {

/// The number of leading frames that a fit compares.
pub const HOPS_TO_COMPARE: usize = 10;

/// The most iterations that the solver may take.
pub const MAX_ITERS: u64 = 200;

/// The simplex solver stops once the standard deviation of the costs at its
/// vertices is below this value, in millionths.
pub const SD_TOLERANCE: i32 = 100;

/// The number of particles of a swarm.
pub const PARTICLE_COUNT: usize = 40;

/// What a simplex solver is started with.
#[derive(Debug)]
pub struct NelderMeadSetup {
    /// The vertices of the first simplex, one more than there are parameters.
    pub vertices: Vec<Vec<i32>>,
    /// The standard deviation of the costs at which the solver stops.
    pub sd_tolerance: i32,
}

/// What a swarm solver is started with.
#[derive(Debug)]
pub struct ParticleSwarmSetup {
    /// The lower bound of the search region, parameter by parameter.
    pub lower: Vec<i32>,
    /// The upper bound of the search region, parameter by parameter.
    pub upper: Vec<i32>,
    /// The number of particles.
    pub particles: usize,
}

/// A fit that is left to the solver.
#[derive(Debug)]
pub struct SolveRequest<'a> {
    /// The cost that the solver minimises.
    pub cost_function: Opti<'a>,
    /// The simplex that the solver starts from.
    pub solver: NelderMeadSetup,
    /// The most iterations that the solver may take.
    pub max_iters: u64,
}

/// What is to be done for one slice.
#[derive(Debug)]
pub enum Refinement<'a> {
    /// Nothing is left to do: these are the notes.
    Finished(Vec<Note>),
    /// The solver has to run; its answer then gives the notes.
    Solve(SolveRequest<'a>),
}

/// Vertex `i` of the first simplex over `n` parameters: full volume
/// everywhere but at parameter `i`, which is zero. Vertex `n` has no zero.
pub open spec fn simplex_vertex(n: nat, i: int) -> Seq<i32> {
    Seq::new(
        n,
        |j: int|
            if j == i {
                0i32
            } else {
                VOLUME_UNIT
            },
    )
}

/// The first simplex over `n` parameters: `n + 1` vertices.
pub open spec fn initial_simplex(n: nat) -> Seq<Seq<i32>> {
    Seq::new(n + 1, |i: int| simplex_vertex(n, i))
}

/// `n` parameters, all of the value `level`.
pub open spec fn uniform(n: nat, level: i32) -> Seq<i32> {
    Seq::new(n, |j: int| level)
}

impl<'a> SolveRequest<'a> {
    /// This is the request to fit the notes `found` of the library `cache`
    /// to the observation `observed`: the leading frames are compared at
    /// unit gain, and the solver starts from the first simplex with the
    /// fixed budget.
    pub open spec fn fits(
        &self,
        cache: &CachedInstruments,
        observed: Seq<Seq<u16>>,
        found: Seq<Note>,
    ) -> bool {
        &&& self.cost_function.cache == cache
        &&& self.cost_function.multiplier == VOLUME_UNIT
        &&& self.cost_function.song_part.deep_view() == observed.take(HOPS_TO_COMPARE as int)
        &&& self.cost_function.found_notes@ == found
        &&& self.cost_function.hops_to_compare == HOPS_TO_COMPARE
        &&& self.solver.vertices.deep_view() == initial_simplex(found.len())
        &&& self.solver.sd_tolerance == SD_TOLERANCE
        &&& self.max_iters == MAX_ITERS
    }

    /// The notes of the request at the volumes that the solver found best.
    pub fn finish(&self, found_positions: &[i32]) -> (owned_notes: Vec<Note>)
        requires
            found_positions@.len() == self.cost_function.found_notes@.len(),
        ensures
            owned_notes@ == with_volumes(self.cost_function.found_notes@, found_positions@),
    {
        notes_with_volumes(self.cost_function.found_notes.as_slice(), found_positions)
    }
}

impl<'a> Refinement<'a> {
    /// This is what is to be done for the candidates `found` of the
    /// observation `observed`: without candidates there are no notes and
    /// nothing is solved; with candidates the solver is asked to fit them.
    pub open spec fn plans(
        &self,
        cache: &CachedInstruments,
        observed: Seq<Seq<u16>>,
        found: Seq<Note>,
    ) -> bool {
        match self {
            Refinement::Finished(notes) => found.len() == 0 && notes@.len() == 0,
            Refinement::Solve(request) => found.len() > 0 && request.fits(cache, observed, found),
        }
    }
}

/// `n` parameters, all of the value `level`.
fn uniform_parameters(n: usize, level: i32) -> (parameters: Vec<i32>)
    ensures
        parameters@ == uniform(n as nat, level),
{
    let parameters = vec![level; n];
    assert(parameters@ =~= uniform(n as nat, level));
    parameters
}

/// The simplex solver for the given candidates: one vertex for each
/// parameter, with that parameter at zero and the others at full volume, and
/// one vertex with all at full volume.
pub fn get_nm_solver(found_notes: &[Note]) -> (solver_nm: NelderMeadSetup)
    ensures
        solver_nm.vertices.deep_view() == initial_simplex(found_notes@.len()),
        solver_nm.sd_tolerance == SD_TOLERANCE,
{
    let param_number = found_notes.len();
    let mut paramsvec_nm: Vec<Vec<i32>> = Vec::new();
    let mut i: usize = 0;
    while i < param_number
        invariant
            i <= param_number,
            paramsvec_nm@.len() == i,
            forall|k: int|
                0 <= k < i ==> (#[trigger] paramsvec_nm@[k])@ == simplex_vertex(
                    param_number as nat,
                    k,
                ),
        decreases param_number - i,
    {
        let mut vertex = uniform_parameters(param_number, VOLUME_UNIT);
        vertex[i] = 0;
        assert(vertex@ =~= simplex_vertex(param_number as nat, i as int));
        paramsvec_nm.push(vertex);
        i = i + 1;
    }
    let last = uniform_parameters(param_number, VOLUME_UNIT);
    assert(last@ =~= simplex_vertex(param_number as nat, param_number as int));
    paramsvec_nm.push(last);
    assert(paramsvec_nm.deep_view() =~= initial_simplex(param_number as nat)) by {
        assert forall|k: int| 0 <= k <= param_number implies paramsvec_nm.deep_view()[k]
            =~= initial_simplex(param_number as nat)[k] by {
            assert(paramsvec_nm@[k]@ == simplex_vertex(param_number as nat, k));
        }
    }
    NelderMeadSetup { vertices: paramsvec_nm, sd_tolerance: SD_TOLERANCE }
}

/// The swarm solver for the given candidates: every volume is searched
/// between zero and full volume.
pub fn get_pso_solver(found_notes: &[Note]) -> (solver_pso: ParticleSwarmSetup)
    ensures
        solver_pso.lower@ == uniform(found_notes@.len(), 0),
        solver_pso.upper@ == uniform(found_notes@.len(), VOLUME_UNIT),
        solver_pso.particles == PARTICLE_COUNT,
{
    let param_number = found_notes.len();
    ParticleSwarmSetup {
        lower: uniform_parameters(param_number, 0),
        upper: uniform_parameters(param_number, VOLUME_UNIT),
        particles: PARTICLE_COUNT,
    }
}

/// Decides what is to be done with the candidates of a slice. Without
/// candidates the result is final and empty, and no solver is set up. With
/// candidates the solver is asked to fit their volumes against the leading
/// frames of the slice.
pub fn optimize<'a>(
    cache: &'a CachedInstruments,
    spectrogram_slice: &'a [Vec<u16>],
    found_notes: &[Note],
) -> (refinement: Refinement<'a>)
    requires
        found_notes@.len() > 0 ==> spectrogram_slice@.len() >= HOPS_TO_COMPARE,
    ensures
        refinement.plans(cache, spectrogram_slice.deep_view(), found_notes@),
{
    if found_notes.len() == 0 {
        return Refinement::Finished(Vec::new());
    }
    let hopstocomp = HOPS_TO_COMPARE;
    let spectrogram = slice_subrange(spectrogram_slice, 0, hopstocomp);
    assert(spectrogram.deep_view() =~= spectrogram_slice.deep_view().take(hopstocomp as int));
    let cost_function = Opti {
        cache,
        multiplier: VOLUME_UNIT,
        song_part: spectrogram,
        found_notes: slice_to_vec(found_notes),
        hops_to_compare: hopstocomp,
    };
    let solver = get_nm_solver(found_notes);
    Refinement::Solve(SolveRequest { cost_function, solver, max_iters: MAX_ITERS })
}

/// Searches the spectrogram from `start_hop` on for candidate notes and
/// decides what is to be done with them: nothing where there are none, a fit
/// of their volumes otherwise.
pub fn full_optimize_timestamp<'a>(
    cache: &'a CachedInstruments,
    spectrogram: &'a [Vec<u16>],
    start_hop: usize,
) -> (refinement: Refinement<'a>)
    requires
        start_hop <= spectrogram@.len(),
        spectrogram@.len() - start_hop >= SEARCH_FRAMES ==> cache.well_formed() && searchable(
            spectrogram.deep_view().skip(start_hop as int),
            cache@,
        ),
    ensures
        refinement.plans(
            cache,
            spectrogram.deep_view().skip(start_hop as int),
            candidates(spectrogram.deep_view().skip(start_hop as int), cache@),
        ),
{
    let rest = slice_subrange(spectrogram, start_hop, spectrogram.len());
    assert(rest.deep_view() =~= spectrogram.deep_view().skip(start_hop as int));
    let found_notes = test_distances_for_instruments(rest, cache);
    optimize(cache, rest, found_notes.as_slice())
}

} // verus!
