//! The search for candidate notes: which references of the library does an
//! observed slice not contradict?

use crate::distance::{
    bin_count, calculate_assymetric_distance, cell_error_limit, distance, is_measurable,
    lemma_distance_bounds, lemma_prefix_distance_agrees, lemma_prefix_distance_past_the_end,
    magnitude, measurable, silence, Metric,
};
use crate::note::{CachedInstruments, Note};
use vstd::prelude::*;
use vstd::slice::slice_subrange;

verus! {

/// The number of leading frames of an observation that the search looks at.
pub const SEARCH_FRAMES: usize = 40;

/// The volume at which every reference is tried: a fifth of full volume.
pub const TRIAL_VOLUME: i32 = 200_000;

/// A reference passes when its distance is under this many thousandths of
/// its baseline.
pub const THRESHOLD_PER_MILLE: u128 = 35;

/// The part of an observation that the search looks at.
pub open spec fn search_window(observed: Seq<Seq<u16>>) -> Seq<Seq<u16>> {
    observed.take(SEARCH_FRAMES as int)
}

/// How far the reference at trial volume is from silence: the most that any
/// observation can lack of it.
pub open spec fn baseline(reference: Seq<Seq<u16>>) -> int {
    distance(
        silence(1, bin_count(reference)),
        reference,
        Metric::Asymmetric,
        TRIAL_VOLUME as int,
    )
}

/// The observation lacks less than the threshold's share of what the
/// reference expects. A reference with baseline zero expects nothing and
/// never passes.
pub open spec fn passes(part: Seq<Seq<u16>>, reference: Seq<Seq<u16>>) -> bool {
    let diff = distance(part, reference, Metric::Asymmetric, TRIAL_VOLUME as int);
    let compensation = baseline(reference);
    compensation > 0 && diff * 1000 < THRESHOLD_PER_MILLE * compensation
}

/// The candidates among the first `pitches` pitches of one instrument, in
/// the order of their pitch.
pub open spec fn pitch_scan(
    part: Seq<Seq<u16>>,
    library: Seq<Seq<Seq<Seq<u16>>>>,
    instrument: int,
    pitches: int,
) -> Seq<Note>
    decreases pitches,
{
    if pitches <= 0 {
        Seq::empty()
    } else {
        let before = pitch_scan(part, library, instrument, pitches - 1);
        if passes(part, library[instrument][pitches - 1]) {
            before.push(
                Note {
                    instrument_id: instrument as usize,
                    pitch: (pitches - 1) as usize,
                    volume: TRIAL_VOLUME,
                },
            )
        } else {
            before
        }
    }
}

/// The candidates among the first `instruments` instruments: instrument by
/// instrument, and within one instrument pitch by pitch.
pub open spec fn instrument_scan(
    part: Seq<Seq<u16>>,
    library: Seq<Seq<Seq<Seq<u16>>>>,
    instruments: int,
) -> Seq<Note>
    decreases instruments,
{
    if instruments <= 0 {
        Seq::empty()
    } else {
        instrument_scan(part, library, instruments - 1) + pitch_scan(
            part,
            library,
            instruments - 1,
            library[instruments - 1].len() as int,
        )
    }
}

/// The candidate notes of an observation: none where it has fewer frames
/// than the search looks at, else every reference that passes against its
/// leading frames, at trial volume.
pub open spec fn candidates(observed: Seq<Seq<u16>>, library: Seq<Seq<Seq<Seq<u16>>>>) -> Seq<
    Note,
> {
    if observed.len() < SEARCH_FRAMES {
        Seq::empty()
    } else {
        instrument_scan(search_window(observed), library, library.len() as int)
    }
}

/// The observation can be held against every grid of the library: its
/// leading frames are measurable and as wide as each grid.
pub open spec fn searchable(observed: Seq<Seq<u16>>, library: Seq<Seq<Seq<Seq<u16>>>>) -> bool {
    &&& measurable(search_window(observed))
    &&& forall|i: int, p: int|
        0 <= i < library.len() && 0 <= p < library[i].len() ==> bin_count(
            #[trigger] library[i][p],
        ) == bin_count(search_window(observed))
}

/// Tells whether the search accepts the slice with this library: a slice
/// shorter than the search window always, a longer one where its leading
/// frames are measurable and as wide as every grid of the library.
pub fn can_search(spectrogram_slice: &[Vec<u16>], cache: &CachedInstruments) -> (ok: bool)
    requires
        cache.well_formed(),
    ensures
        ok == (spectrogram_slice@.len() >= SEARCH_FRAMES ==> searchable(
            spectrogram_slice.deep_view(),
            cache@,
        )),
{
    if spectrogram_slice.len() < SEARCH_FRAMES {
        return true;
    }
    let song_part = slice_subrange(spectrogram_slice, 0, SEARCH_FRAMES);
    let ghost part = search_window(spectrogram_slice.deep_view());
    let ghost library = cache@;
    assert(song_part.deep_view() =~= part);
    if !is_measurable(song_part) {
        return false;
    }
    assert(part[0] == song_part@[0]@);
    let bins = song_part[0].len();
    let mut instr_idx: usize = 0;
    while instr_idx < cache.instrument_count
        invariant
            cache.well_formed(),
            library == cache@,
            spectrogram_slice@.len() >= SEARCH_FRAMES,
            part == search_window(spectrogram_slice.deep_view()),
            measurable(part),
            bins == bin_count(part),
            instr_idx <= cache.instrument_count,
            forall|i: int, p: int|
                0 <= i < instr_idx && 0 <= p < library[i].len() ==> bin_count(
                    #[trigger] library[i][p],
                ) == bins,
        decreases cache.instrument_count - instr_idx,
    {
        let mut pitch: usize = 0;
        assert(library[instr_idx as int] == cache.spectrograms@[instr_idx as int].deep_view());
        while pitch < cache.pitch_count
            invariant
                cache.well_formed(),
                library == cache@,
                spectrogram_slice@.len() >= SEARCH_FRAMES,
                part == search_window(spectrogram_slice.deep_view()),
                bins == bin_count(part),
                instr_idx < cache.instrument_count,
                pitch <= cache.pitch_count,
                library[instr_idx as int] == cache.spectrograms@[instr_idx as int].deep_view(),
                forall|p: int|
                    0 <= p < pitch ==> bin_count(#[trigger] library[instr_idx as int][p]) == bins,
            decreases cache.pitch_count - pitch,
        {
            let sample_2dvec = &cache.spectrograms[instr_idx][pitch];
            let ghost reference = library[instr_idx as int][pitch as int];
            assert(reference == sample_2dvec.deep_view());
            assert(measurable(reference));
            assert(reference[0] == sample_2dvec@[0]@);
            if sample_2dvec[0].len() != bins {
                assert(library[instr_idx as int].len() == cache.pitch_count);
                assert(bin_count(library[instr_idx as int][pitch as int]) != bin_count(part));
                return false;
            }
            pitch = pitch + 1;
        }
        instr_idx = instr_idx + 1;
    }
    true
}

/// Searches the whole library for the notes that the observed slice may
/// hold. A slice shorter than the search window gives no candidates,
/// whatever the library holds.
pub fn test_distances_for_instruments(
    spectrogram_slice: &[Vec<u16>],
    cache: &CachedInstruments,
) -> (test_found_notes: Vec<Note>)
    requires
        spectrogram_slice@.len() >= SEARCH_FRAMES ==> cache.well_formed() && searchable(
            spectrogram_slice.deep_view(),
            cache@,
        ),
    ensures
        test_found_notes@ == candidates(spectrogram_slice.deep_view(), cache@),
        spectrogram_slice@.len() < SEARCH_FRAMES ==> test_found_notes@.len() == 0,
{
    let mut test_found_notes: Vec<Note> = Vec::new();
    if spectrogram_slice.len() < 40 {
        return Vec::new();
    }
    let song_part = slice_subrange(spectrogram_slice, 0, 40);
    let ghost part = search_window(spectrogram_slice.deep_view());
    let ghost library = cache@;
    assert(song_part.deep_view() =~= part);
    let mut instr_idx: usize = 0;
    while instr_idx < cache.instrument_count
        invariant
            cache.well_formed(),
            library == cache@,
            part == song_part.deep_view(),
            searchable(spectrogram_slice.deep_view(), library),
            part == search_window(spectrogram_slice.deep_view()),
            instr_idx <= cache.instrument_count,
            test_found_notes@ == instrument_scan(part, library, instr_idx as int),
        decreases cache.instrument_count - instr_idx,
    {
        let mut pitch: usize = 0;
        let ghost before = test_found_notes@;
        assert(library[instr_idx as int] == cache.spectrograms@[instr_idx as int].deep_view());
        while pitch < cache.pitch_count
            invariant
                cache.well_formed(),
                library == cache@,
                part == song_part.deep_view(),
                searchable(spectrogram_slice.deep_view(), library),
                part == search_window(spectrogram_slice.deep_view()),
                instr_idx < cache.instrument_count,
                pitch <= cache.pitch_count,
                library[instr_idx as int] == cache.spectrograms@[instr_idx as int].deep_view(),
                test_found_notes@ == before + pitch_scan(
                    part,
                    library,
                    instr_idx as int,
                    pitch as int,
                ),
            decreases cache.pitch_count - pitch,
        {
            let sample_2dvec = &cache.spectrograms[instr_idx][pitch];
            let ghost reference = library[instr_idx as int][pitch as int];
            assert(reference == sample_2dvec.deep_view());
            assert(measurable(reference));
            assert(reference[0] == sample_2dvec@[0]@);
            let temp_volume = TRIAL_VOLUME;
            let diff = calculate_assymetric_distance(song_part, sample_2dvec, temp_volume);
            let mut silent: Vec<Vec<u16>> = Vec::new();
            silent.push(vec![0u16; sample_2dvec[0].len()]);
            assert(silent.deep_view() =~= silence(1, bin_count(reference))) by {
                assert(silent.deep_view()[0] =~= silence(1, bin_count(reference))[0]);
            }
            let compensation = calculate_assymetric_distance(
                silent.as_slice(),
                sample_2dvec,
                temp_volume,
            );
            proof {
                lemma_distance_bounds(part, reference, Metric::Asymmetric, temp_volume as int);
                lemma_distance_bounds(
                    silence(1, bin_count(reference)),
                    reference,
                    Metric::Asymmetric,
                    temp_volume as int,
                );
                let limit = cell_error_limit(temp_volume as int);
                assert(limit == 4_294_836_225_000_000_000_000) by (nonlinear_arith)
                    requires
                        limit == (65_535 * 1_000_000) * (65_535 * 1_000_000),
                ;
            }
            if compensation > 0 && diff * 1000 < THRESHOLD_PER_MILLE * compensation {
                test_found_notes.push(Note { instrument_id: instr_idx, pitch, volume: temp_volume });
            }
            pitch = pitch + 1;
            assert(test_found_notes@ =~= before + pitch_scan(
                part,
                library,
                instr_idx as int,
                pitch as int,
            ));
        }
        instr_idx = instr_idx + 1;
        assert(test_found_notes@ =~= instrument_scan(part, library, instr_idx as int));
    }
    test_found_notes
}

/// `earlier` comes before `later` in the order of the scan: by instrument,
/// and within one instrument by pitch.
pub open spec fn scanned_before(earlier: Note, later: Note) -> bool {
    earlier.instrument_id < later.instrument_id || (earlier.instrument_id == later.instrument_id
        && earlier.pitch < later.pitch)
}

/// The candidate for instrument `i` and pitch `p`.
pub open spec fn candidate(i: int, p: int) -> Note {
    Note { instrument_id: i as usize, pitch: p as usize, volume: TRIAL_VOLUME }
}

/// `found` holds, in the order of the scan and each once, the candidates of
/// exactly those grids of the instruments below `instruments` that pass.
pub open spec fn exactly_the_passing(
    found: Seq<Note>,
    part: Seq<Seq<u16>>,
    library: Seq<Seq<Seq<Seq<u16>>>>,
    instruments: int,
) -> bool {
    &&& forall|k: int|
        0 <= k < found.len() ==> {
            let note = #[trigger] found[k];
            &&& note.volume == TRIAL_VOLUME
            &&& note.instrument_id < instruments
            &&& note.pitch < library[note.instrument_id as int].len()
            &&& passes(part, library[note.instrument_id as int][note.pitch as int])
        }
    &&& forall|i: int, p: int|
        0 <= i < instruments && 0 <= p < library[i].len() && passes(part, library[i][p])
            ==> found.contains(#[trigger] candidate(i, p))
    &&& forall|j: int, k: int|
        0 <= j < k < found.len() ==> scanned_before(#[trigger] found[j], #[trigger] found[k])
}

/// What the scan of one instrument's first pitches holds.
proof fn lemma_pitch_scan(
    part: Seq<Seq<u16>>,
    library: Seq<Seq<Seq<Seq<u16>>>>,
    instrument: int,
    pitches: int,
)
    requires
        0 <= instrument <= usize::MAX,
        0 <= pitches <= usize::MAX,
    ensures
        forall|k: int|
            0 <= k < pitch_scan(part, library, instrument, pitches).len() ==> {
                let note = #[trigger] pitch_scan(part, library, instrument, pitches)[k];
                &&& note.volume == TRIAL_VOLUME
                &&& note.instrument_id == instrument
                &&& note.pitch < pitches
                &&& passes(part, library[instrument][note.pitch as int])
            },
        forall|p: int|
            0 <= p < pitches && passes(part, library[instrument][p]) ==> pitch_scan(
                part,
                library,
                instrument,
                pitches,
            ).contains(#[trigger] candidate(instrument, p)),
        forall|j: int, k: int|
            0 <= j < k < pitch_scan(part, library, instrument, pitches).len() ==> scanned_before(
                #[trigger] pitch_scan(part, library, instrument, pitches)[j],
                #[trigger] pitch_scan(part, library, instrument, pitches)[k],
            ),
    decreases pitches,
{
    if pitches > 0 {
        lemma_pitch_scan(part, library, instrument, pitches - 1);
        let before = pitch_scan(part, library, instrument, pitches - 1);
        let now = pitch_scan(part, library, instrument, pitches);
        assert forall|p: int|
            0 <= p < pitches && passes(part, library[instrument][p]) implies now.contains(
            #[trigger] candidate(instrument, p),
        ) by {
            if p < pitches - 1 {
                let k = choose|k: int| 0 <= k < before.len() && before[k] == candidate(instrument, p);
                assert(now[k] == candidate(instrument, p));
            } else {
                assert(now[now.len() - 1] == candidate(instrument, p));
            }
        }
    }
}

/// What the scan of the first instruments holds.
proof fn lemma_instrument_scan(
    part: Seq<Seq<u16>>,
    library: Seq<Seq<Seq<Seq<u16>>>>,
    instruments: int,
)
    requires
        0 <= instruments <= library.len() <= usize::MAX,
        forall|i: int| 0 <= i < library.len() ==> (#[trigger] library[i]).len() <= usize::MAX,
    ensures
        exactly_the_passing(
            instrument_scan(part, library, instruments),
            part,
            library,
            instruments,
        ),
    decreases instruments,
{
    if instruments > 0 {
        let last = instruments - 1;
        lemma_instrument_scan(part, library, last);
        lemma_pitch_scan(part, library, last, library[last].len() as int);
        let before = instrument_scan(part, library, last);
        let added = pitch_scan(part, library, last, library[last].len() as int);
        let now = instrument_scan(part, library, instruments);
        assert(now == before + added);
        assert forall|k: int| 0 <= k < now.len() implies {
            let note = #[trigger] now[k];
            &&& note.volume == TRIAL_VOLUME
            &&& note.instrument_id < instruments
            &&& note.pitch < library[note.instrument_id as int].len()
            &&& passes(part, library[note.instrument_id as int][note.pitch as int])
        } by {
            if k < before.len() {
                assert(now[k] == before[k]);
            } else {
                assert(now[k] == added[k - before.len()]);
            }
        }
        assert forall|i: int, p: int|
            0 <= i < instruments && 0 <= p < library[i].len() && passes(
                part,
                library[i][p],
            ) implies now.contains(#[trigger] candidate(i, p)) by {
            if i < last {
                let k = choose|k: int| 0 <= k < before.len() && before[k] == candidate(i, p);
                assert(now[k] == candidate(i, p));
            } else {
                let k = choose|k: int| 0 <= k < added.len() && added[k] == candidate(i, p);
                assert(now[before.len() + k] == candidate(i, p));
            }
        }
        assert forall|j: int, k: int| 0 <= j < k < now.len() implies scanned_before(
            #[trigger] now[j],
            #[trigger] now[k],
        ) by {
            if k < before.len() {
                assert(now[j] == before[j] && now[k] == before[k]);
            } else if j < before.len() {
                assert(now[j] == before[j] && now[k] == added[k - before.len()]);
            } else {
                assert(now[j] == added[j - before.len()] && now[k] == added[k - before.len()]);
            }
        }
    }
}

/// The candidates of an observation that is long enough are exactly the
/// grids of the library that pass against its leading frames: each of them
/// once, at trial volume, instrument by instrument and pitch by pitch.
pub proof fn lemma_candidates_are_exactly_the_passing(
    observed: Seq<Seq<u16>>,
    library: Seq<Seq<Seq<Seq<u16>>>>,
)
    requires
        observed.len() >= SEARCH_FRAMES,
        library.len() <= usize::MAX,
        forall|i: int| 0 <= i < library.len() ==> (#[trigger] library[i]).len() <= usize::MAX,
    ensures
        exactly_the_passing(
            candidates(observed, library),
            search_window(observed),
            library,
            library.len() as int,
        ),
{
    lemma_instrument_scan(search_window(observed), library, library.len() as int);
}

/// The search is a function of what the observation and the library hold:
/// equal observations and equal libraries have the same candidates, in the
/// same order.
pub proof fn lemma_search_is_deterministic(
    observed: Seq<Seq<u16>>,
    library: Seq<Seq<Seq<Seq<u16>>>>,
    observed_again: Seq<Seq<u16>>,
    library_again: Seq<Seq<Seq<Seq<u16>>>>,
)
    requires
        observed =~~= observed_again,
        library =~~= library_again,
    ensures
        candidates(observed, library) == candidates(observed_again, library_again),
{
}

/// The baseline of a reference is its distance from silence of its own
/// shape: one silent frame says as much as one for every frame it has.
pub proof fn lemma_baseline_is_distance_from_silence(reference: Seq<Seq<u16>>)
    requires
        reference.len() > 0,
    ensures
        baseline(reference) == distance(
            silence(reference.len(), bin_count(reference)),
            reference,
            Metric::Asymmetric,
            TRIAL_VOLUME as int,
        ),
{
    let bins = bin_count(reference);
    let one = silence(1, bins);
    let all = silence(reference.len(), bins);
    assert(one[0].len() == bins);
    assert(all[0].len() == bins);
    assert forall|t: int, f: int|
        0 <= t < reference.len() && 0 <= f < bins implies magnitude(one, t, f) == magnitude(
        all,
        t,
        f,
    ) by {
        assert(all[t][f] == 0);
        if t < 1 {
            assert(one[t][f] == 0);
        }
    }
    lemma_prefix_distance_agrees(
        one,
        reference,
        all,
        reference,
        Metric::Asymmetric,
        TRIAL_VOLUME as int,
        reference.len() as int,
        bins as int,
    );
}

/// A reference never passes against silence: an observation whose leading
/// frames are all zero lacks everything that the reference expects.
pub proof fn lemma_silence_never_passes(part: Seq<Seq<u16>>, reference: Seq<Seq<u16>>)
    requires
        measurable(part),
        measurable(reference),
        bin_count(part) == bin_count(reference),
        forall|t: int, f: int| 0 <= t < part.len() && 0 <= f < bin_count(part) ==> part[t][f] == 0,
    ensures
        !passes(part, reference),
{
    let bins = bin_count(reference);
    let quiet = silence(1, bins);
    let scale = TRIAL_VOLUME as int;
    let longer = if part.len() >= reference.len() {
        part.len() as int
    } else {
        reference.len() as int
    };
    assert(quiet[0].len() == bins);
    assert forall|t: int, f: int| 0 <= t < longer && 0 <= f < bins implies magnitude(part, t, f)
        == magnitude(quiet, t, f) by {
        if t < 1 {
            assert(quiet[t][f] == 0);
        }
    }
    lemma_prefix_distance_agrees(
        part,
        reference,
        quiet,
        reference,
        Metric::Asymmetric,
        scale,
        longer,
        bins as int,
    );
    lemma_prefix_distance_past_the_end(
        quiet,
        reference,
        Metric::Asymmetric,
        scale,
        longer,
        bins as int,
    );
    assert(distance(part, reference, Metric::Asymmetric, scale) == baseline(reference));
    lemma_distance_bounds(part, reference, Metric::Asymmetric, scale);
}

/// Silence holds no notes: an observation whose leading frames are all zero
/// has no candidates, whatever the library holds.
pub proof fn lemma_silence_has_no_candidates(
    observed: Seq<Seq<u16>>,
    library: Seq<Seq<Seq<Seq<u16>>>>,
)
    requires
        forall|i: int, p: int|
            0 <= i < library.len() && 0 <= p < library[i].len() ==> measurable(
                #[trigger] library[i][p],
            ),
        searchable(observed, library),
        forall|t: int, f: int|
            0 <= t < SEARCH_FRAMES && 0 <= f < bin_count(observed) ==> observed[t][f] == 0,
    ensures
        candidates(observed, library).len() == 0,
{
    if observed.len() >= SEARCH_FRAMES {
        let part = search_window(observed);
        lemma_silent_instrument_scan(part, library, library.len() as int);
    }
}

/// The scan of one instrument finds nothing in silence.
proof fn lemma_silent_pitch_scan(
    part: Seq<Seq<u16>>,
    library: Seq<Seq<Seq<Seq<u16>>>>,
    instrument: int,
    pitches: int,
)
    requires
        0 <= instrument < library.len(),
        pitches <= library[instrument].len(),
        measurable(part),
        forall|p: int|
            0 <= p < library[instrument].len() ==> measurable(#[trigger] library[instrument][p])
                && bin_count(library[instrument][p]) == bin_count(part),
        forall|t: int, f: int| 0 <= t < part.len() && 0 <= f < bin_count(part) ==> part[t][f] == 0,
    ensures
        pitch_scan(part, library, instrument, pitches).len() == 0,
    decreases pitches,
{
    if pitches > 0 {
        lemma_silent_pitch_scan(part, library, instrument, pitches - 1);
        lemma_silence_never_passes(part, library[instrument][pitches - 1]);
    }
}

/// The scan of the instruments finds nothing in silence.
proof fn lemma_silent_instrument_scan(
    part: Seq<Seq<u16>>,
    library: Seq<Seq<Seq<Seq<u16>>>>,
    instruments: int,
)
    requires
        instruments <= library.len(),
        measurable(part),
        forall|i: int, p: int|
            0 <= i < library.len() && 0 <= p < library[i].len() ==> measurable(
                #[trigger] library[i][p],
            ) && bin_count(library[i][p]) == bin_count(part),
        forall|t: int, f: int| 0 <= t < part.len() && 0 <= f < bin_count(part) ==> part[t][f] == 0,
    ensures
        instrument_scan(part, library, instruments).len() == 0,
    decreases instruments,
{
    if instruments > 0 {
        lemma_silent_instrument_scan(part, library, instruments - 1);
        lemma_silent_pitch_scan(
            part,
            library,
            instruments - 1,
            library[instruments - 1].len() as int,
        );
    }
}

} // verus!
