use notefit::distance::{
    calculate_assymetric_distance, calculate_distance, calculate_symetric_distance, is_measurable,
    Metric, MAX_BINS, MAX_FRAMES, VOLUME_UNIT,
};

fn grid(frames: usize, bins: usize, level: u16) -> Vec<Vec<u16>> {
    vec![vec![level; bins]; frames]
}

#[test]
fn absolute_distance_to_itself_is_zero() {
    let a = vec![vec![3u16, 0, 65_535], vec![7, 9, 1]];
    assert_eq!(calculate_distance(&a, &a, Metric::SymmetricAbs, VOLUME_UNIT), 0);
    assert_eq!(calculate_symetric_distance(&a, &a, VOLUME_UNIT), 0);
}

#[test]
fn asymmetric_distance_is_not_symmetric() {
    let a = grid(2, 3, 1);
    let b = grid(2, 3, 5);
    // six cells, each lacking four levels: 6 * (4 * 10^6)^2
    assert_eq!(calculate_assymetric_distance(&a, &b, VOLUME_UNIT), 96_000_000_000_000);
    assert_eq!(calculate_assymetric_distance(&b, &a, VOLUME_UNIT), 0);
    assert_eq!(calculate_assymetric_distance(&a, &a, VOLUME_UNIT), 0);
}

#[test]
fn asymmetric_cell_is_squared_shortfall() {
    let observed = vec![vec![1u16]];
    let reference = vec![vec![5u16]];
    assert_eq!(
        calculate_distance(&observed, &reference, Metric::Asymmetric, VOLUME_UNIT),
        16_000_000_000_000
    );
    // at a fifth of the volume the reference expects exactly one level
    assert_eq!(calculate_distance(&observed, &reference, Metric::Asymmetric, 200_000), 0);
    // at three fifths it expects three: two are lacking
    assert_eq!(
        calculate_distance(&observed, &reference, Metric::Asymmetric, 600_000),
        4_000_000_000_000
    );
}

#[test]
fn absolute_cell_is_difference_either_way() {
    let observed = vec![vec![3u16]];
    let reference = vec![vec![5u16]];
    assert_eq!(
        calculate_distance(&observed, &reference, Metric::SymmetricAbs, VOLUME_UNIT),
        2_000_000
    );
    assert_eq!(
        calculate_distance(&reference, &observed, Metric::SymmetricAbs, VOLUME_UNIT),
        2_000_000
    );
    assert_eq!(calculate_distance(&observed, &reference, Metric::SymmetricAbs, 500_000), 500_000);
}

#[test]
fn negative_volume_expects_less_than_silence() {
    let observed = vec![vec![3u16]];
    let reference = vec![vec![5u16]];
    assert_eq!(calculate_distance(&observed, &reference, Metric::Asymmetric, -VOLUME_UNIT), 0);
    assert_eq!(
        calculate_distance(&observed, &reference, Metric::SymmetricAbs, -VOLUME_UNIT),
        8_000_000
    );
}

#[test]
fn shorter_reference_is_padded_with_silence() {
    let a = vec![vec![1u16, 2], vec![3, 4], vec![5, 6]];
    let b = vec![vec![4u16, 4]];
    let mut padded = b.clone();
    padded.push(vec![0, 0]);
    padded.push(vec![0, 0]);
    for metric in [Metric::Asymmetric, Metric::SymmetricAbs] {
        for volume in [VOLUME_UNIT, 200_000, 3 * VOLUME_UNIT] {
            assert_eq!(
                calculate_distance(&a, &b, metric, volume),
                calculate_distance(&a, &padded, metric, volume)
            );
        }
    }
    // frame 0: |1-4| + |2-4| = 5, frames 1 and 2 against silence: 3+4+5+6 = 18
    assert_eq!(calculate_distance(&a, &b, Metric::SymmetricAbs, VOLUME_UNIT), 23_000_000);
    // only frame 0 lacks anything: 3^2 + 2^2 = 13
    assert_eq!(calculate_distance(&a, &b, Metric::Asymmetric, VOLUME_UNIT), 13_000_000_000_000);
}

#[test]
fn shorter_observation_is_padded_with_silence() {
    let a = vec![vec![4u16, 4]];
    let b = vec![vec![1u16, 2], vec![3, 4], vec![5, 6]];
    // frame 0 lacks nothing; frames 1 and 2 lack all: 9 + 16 + 25 + 36 = 86
    assert_eq!(calculate_assymetric_distance(&a, &b, VOLUME_UNIT), 86_000_000_000_000);
}

#[test]
fn symmetric_distance_cuts_to_the_shorter() {
    let a = vec![vec![1u16, 2], vec![3, 4], vec![5, 6]];
    let b = vec![vec![4u16, 4]];
    assert_eq!(calculate_symetric_distance(&a, &b, VOLUME_UNIT), 5_000_000);
    assert_eq!(calculate_symetric_distance(&b, &a, VOLUME_UNIT), 5_000_000);
    let c = vec![vec![1u16, 1], vec![1, 1]];
    // two frames: |1-1| + |2-1| + |3-1| + |4-1| = 6
    assert_eq!(calculate_symetric_distance(&a, &c, VOLUME_UNIT), 6_000_000);
    // at twice the volume: |1-2| + |2-2| + |3-2| + |4-2| = 4
    assert_eq!(calculate_symetric_distance(&a, &c, 2 * VOLUME_UNIT), 4_000_000);
}

#[test]
fn loudest_cells_do_not_overflow() {
    let a = grid(1, 2, 0);
    let b = grid(1, 2, 65_535);
    let missing: u128 = 65_535 * 2_147_483_647;
    assert_eq!(calculate_distance(&a, &b, Metric::Asymmetric, i32::MAX), 2 * missing * missing);
    let apart: u128 = 65_535 * 1_000_000 + 65_535 * 2_147_483_648;
    assert_eq!(calculate_distance(&b, &b, Metric::SymmetricAbs, i32::MIN), 2 * apart);
}

#[test]
fn measurable_grids_are_rectangular_and_not_empty() {
    assert!(is_measurable(&grid(1, 0, 0)));
    assert!(is_measurable(&grid(3, 2, 9)));
    assert!(is_measurable(&grid(MAX_FRAMES, 1, 0)));
    assert!(is_measurable(&grid(1, MAX_BINS, 0)));
    assert!(!is_measurable(&grid(0, 0, 0)));
    assert!(!is_measurable(&grid(MAX_FRAMES + 1, 1, 0)));
    assert!(!is_measurable(&grid(1, MAX_BINS + 1, 0)));
    assert!(!is_measurable(&[vec![1u16, 2], vec![3]]));
    assert!(!is_measurable(&[vec![1u16], vec![2], vec![3, 4]]));
}
