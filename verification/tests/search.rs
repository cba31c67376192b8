use notefit::note::{CachedInstruments, Note};
use notefit::search::{
    can_search, test_distances_for_instruments, SEARCH_FRAMES, THRESHOLD_PER_MILLE, TRIAL_VOLUME,
};

fn flat(frames: usize, bins: usize, level: u16) -> Vec<Vec<u16>> {
    vec![vec![level; bins]; frames]
}

fn library(grids: Vec<Vec<Vec<Vec<u16>>>>) -> CachedInstruments {
    let instruments = grids.len();
    let pitches = if instruments == 0 { 0 } else { grids[0].len() };
    CachedInstruments::new(instruments, pitches, grids).unwrap()
}

fn search(observed: &[Vec<u16>], cache: &CachedInstruments) -> Vec<Note> {
    assert!(can_search(observed, cache));
    test_distances_for_instruments(observed, cache)
}

#[test]
fn search_constants() {
    assert_eq!(SEARCH_FRAMES, 40);
    assert_eq!(TRIAL_VOLUME, 200_000);
    assert_eq!(THRESHOLD_PER_MILLE, 35);
}

#[test]
fn short_slice_has_no_candidates() {
    let cache = library(vec![vec![flat(40, 4, 0)]]);
    for frames in [0usize, 1, 39] {
        assert_eq!(search(&flat(frames, 4, 1000), &cache), vec![]);
    }
    // whatever the library holds: it need not even fit the slice
    let other = CachedInstruments {
        instrument_count: 7,
        pitch_count: 9,
        spectrograms: vec![vec![vec![vec![1, 2], vec![3]]]],
    };
    assert_eq!(test_distances_for_instruments(&flat(39, 4, 1000), &other), vec![]);
    assert_eq!(test_distances_for_instruments(&[vec![1u16], vec![2, 3]], &other), vec![]);
}

#[test]
fn scaled_reference_is_the_one_candidate() {
    let cache = library(vec![vec![flat(40, 8, 1000)]]);
    let expected = vec![Note { instrument_id: 0, pitch: 0, volume: 200_000 }];
    assert_eq!(search(&flat(40, 8, 200), &cache), expected);
    assert_eq!(search(&flat(55, 8, 200), &cache), expected);
}

#[test]
fn silence_has_no_candidates() {
    let cache = library(vec![vec![flat(40, 8, 1000)]]);
    assert_eq!(search(&flat(40, 8, 0), &cache), vec![]);
    assert_eq!(search(&flat(64, 8, 0), &cache), vec![]);
}

#[test]
fn silent_reference_is_skipped() {
    let cache = library(vec![vec![flat(40, 8, 0), flat(40, 8, 5)]]);
    let found = search(&flat(40, 8, 1000), &cache);
    assert_eq!(found, vec![Note { instrument_id: 0, pitch: 1, volume: 200_000 }]);
    assert_eq!(search(&flat(40, 8, 0), &cache), vec![]);
}

#[test]
fn search_is_deterministic() {
    let grids = vec![
        vec![flat(40, 2, 5), flat(12, 2, 900), flat(40, 2, 10)],
        vec![flat(50, 2, 65_535), flat(1, 2, 1), flat(40, 2, 15)],
    ];
    let cache = library(grids.clone());
    let again = library(grids);
    let observed = flat(41, 2, 2);
    let first = search(&observed, &cache);
    assert_eq!(search(&observed, &cache), first);
    assert_eq!(search(&observed.clone(), &again), first);
}

#[test]
fn candidates_come_instrument_by_instrument() {
    // at trial volume a reference of level 5 expects 1, of 10 expects 2, of 15 expects 3
    let grids = vec![
        vec![flat(40, 2, 5), flat(40, 2, 900), flat(40, 2, 10)],
        vec![flat(40, 2, 65_535), flat(40, 2, 1), flat(40, 2, 15)],
    ];
    let cache = library(grids);
    let found = search(&flat(40, 2, 2), &cache);
    assert_eq!(
        found,
        vec![
            Note { instrument_id: 0, pitch: 0, volume: 200_000 },
            Note { instrument_id: 0, pitch: 2, volume: 200_000 },
            Note { instrument_id: 1, pitch: 1, volume: 200_000 },
        ]
    );
    let all = search(&flat(40, 2, 65_535), &cache);
    assert_eq!(all.len(), 6);
    for (k, note) in all.iter().enumerate() {
        assert_eq!((note.instrument_id, note.pitch, note.volume), (k / 3, k % 3, 200_000));
    }
}

#[test]
fn threshold_is_strict() {
    // 200 cells that each expect one level: the baseline is 200 * 10^12
    let cache = library(vec![vec![flat(40, 5, 5)]]);
    let heard = |silent_cells: usize| {
        let mut observed = flat(40, 5, 1);
        for cell in 0..silent_cells {
            observed[cell / 5][cell % 5] = 0;
        }
        search(&observed, &cache).len()
    };
    // 6 / 200 = 0.030 passes, 7 / 200 = 0.035 does not
    assert_eq!(heard(0), 1);
    assert_eq!(heard(6), 1);
    assert_eq!(heard(7), 0);
    assert_eq!(heard(8), 0);
    assert_eq!(heard(200), 0);
}

#[test]
fn only_the_leading_frames_are_searched() {
    let cache = library(vec![vec![flat(40, 3, 5)]]);
    let mut observed = flat(40, 3, 1);
    observed.extend(flat(20, 3, 0));
    assert_eq!(search(&observed, &cache).len(), 1);
    let mut late = flat(40, 3, 0);
    late.extend(flat(20, 3, 1));
    assert_eq!(search(&late, &cache).len(), 0);
}

#[test]
fn longer_reference_expects_more_than_the_window() {
    // 80 frames against 40 heard: half of the baseline is lacking
    let long = library(vec![vec![flat(80, 3, 5)]]);
    assert_eq!(search(&flat(40, 3, 1), &long).len(), 0);
    // 41 frames: one frame in 41 is lacking, 3 / 123 = 0.024
    let longer_by_one = library(vec![vec![flat(41, 3, 5)]]);
    assert_eq!(search(&flat(40, 3, 1), &longer_by_one).len(), 1);
    // a short reference is padded: nothing is lacking
    let short = library(vec![vec![flat(3, 3, 5)]]);
    assert_eq!(search(&flat(40, 3, 1), &short).len(), 1);
}

#[test]
fn library_must_match_its_counts() {
    assert!(CachedInstruments::new(0, 0, vec![]).is_some());
    assert!(CachedInstruments::new(0, 5, vec![]).is_some());
    assert!(CachedInstruments::new(1, 0, vec![vec![]]).is_some());
    assert!(CachedInstruments::new(2, 1, vec![vec![flat(1, 1, 0)], vec![flat(2, 3, 4)]]).is_some());
    assert!(CachedInstruments::new(1, 0, vec![]).is_none());
    assert!(CachedInstruments::new(1, 2, vec![vec![flat(1, 1, 0)]]).is_none());
    assert!(CachedInstruments::new(2, 1, vec![vec![flat(1, 1, 0)], vec![]]).is_none());
    assert!(CachedInstruments::new(1, 1, vec![vec![vec![]]]).is_none());
    assert!(CachedInstruments::new(1, 1, vec![vec![vec![vec![1, 2], vec![3]]]]).is_none());
    let made = CachedInstruments::new(1, 2, vec![vec![flat(1, 1, 7), flat(2, 1, 8)]]).unwrap();
    assert_eq!(made.instrument_count, 1);
    assert_eq!(made.pitch_count, 2);
    assert_eq!(made.spectrograms, vec![vec![flat(1, 1, 7), flat(2, 1, 8)]]);
}

#[test]
fn search_needs_equal_widths() {
    let cache = library(vec![vec![flat(40, 3, 5), flat(2, 3, 5)]]);
    assert!(can_search(&flat(40, 3, 1), &cache));
    assert!(can_search(&flat(39, 4, 1), &cache));
    assert!(!can_search(&flat(40, 4, 1), &cache));
    let mut ragged = flat(40, 3, 1);
    ragged[39] = vec![1, 1];
    assert!(!can_search(&ragged, &cache));
    ragged.swap(39, 0);
    assert!(!can_search(&ragged, &cache));
    let mut later = flat(41, 3, 1);
    later[40] = vec![1];
    assert!(can_search(&later, &cache));
    let mixed = library(vec![vec![flat(40, 3, 5)], vec![flat(40, 2, 5)]]);
    assert!(!can_search(&flat(40, 3, 1), &mixed));
    assert!(!can_search(&flat(40, 2, 1), &mixed));
}
