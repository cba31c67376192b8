//! Distances between two time-by-frequency magnitude grids.
//!
//! A grid is a sequence of frames, each a sequence of magnitudes, one per
//! frequency bin. The observed grid is compared cell by cell against a
//! reference grid whose magnitudes are first scaled by a playback volume.

use vstd::prelude::*;
use vstd::slice::slice_subrange;

verus! {

/// The volume that leaves a reference unchanged: volumes count millionths.
pub const VOLUME_UNIT: i32 = 1_000_000;

/// The most frames a grid handed to a distance may have. With `MAX_BINS` it
/// keeps the sum of the cell errors within a `u128`.
pub const MAX_FRAMES: usize = 65_536;

/// The most frequency bins a frame handed to a distance may have.
pub const MAX_BINS: usize = 65_536;

/// How one observed cell is held against one scaled reference cell.
#[derive(Clone, Copy, Debug, PartialEq, Eq, Structural)]
pub enum Metric {
    /// Penalises only energy that the reference expects and the observation
    /// lacks, by the square of what is missing.
    Asymmetric,
    /// Penalises any difference, by its absolute value.
    SymmetricAbs,
}

/// The number of frequency bins of a grid: the width of its first frame.
pub open spec fn bin_count(grid: Seq<Seq<u16>>) -> nat {
    if grid.len() == 0 {
        0
    } else {
        grid[0].len()
    }
}

/// Every frame of the grid has the same number of bins.
pub open spec fn rectangular(grid: Seq<Seq<u16>>) -> bool {
    forall|t: int| 0 <= t < grid.len() ==> (#[trigger] grid[t]).len() == grid[0].len()
}

/// A grid that a distance accepts: not empty, rectangular, within the limits.
pub open spec fn measurable(grid: Seq<Seq<u16>>) -> bool {
    &&& 0 < grid.len() <= MAX_FRAMES
    &&& rectangular(grid)
    &&& bin_count(grid) <= MAX_BINS
}

/// The magnitude at frame `t`, bin `f`; frames past the end are silent.
pub open spec fn magnitude(grid: Seq<Seq<u16>>, t: int, f: int) -> int {
    if 0 <= t < grid.len() {
        grid[t][f] as int
    } else {
        0
    }
}

/// The error of one cell. Both sides are brought to millionths of a level:
/// the observation by `VOLUME_UNIT`, the reference by `scale`. The absolute
/// error is then a number of millionths of a level, the asymmetric error the
/// square of such a number.
pub open spec fn cell_error(metric: Metric, observed: int, reference: int, scale: int) -> int {
    let seen = observed * VOLUME_UNIT;
    let expected = reference * scale;
    match metric {
        Metric::Asymmetric => if seen >= expected {
            0
        } else {
            (expected - seen) * (expected - seen)
        },
        Metric::SymmetricAbs => if seen >= expected {
            seen - expected
        } else {
            expected - seen
        },
    }
}

/// The summed error of the first `bins` cells of frame `t`.
pub open spec fn frame_distance(
    a: Seq<Seq<u16>>,
    b: Seq<Seq<u16>>,
    metric: Metric,
    scale: int,
    t: int,
    bins: int,
) -> int
    decreases bins,
{
    if bins <= 0 {
        0
    } else {
        frame_distance(a, b, metric, scale, t, bins - 1) + cell_error(
            metric,
            magnitude(a, t, bins - 1),
            magnitude(b, t, bins - 1),
            scale,
        )
    }
}

/// The summed error of the first `frames` frames, each `bins` wide.
pub open spec fn prefix_distance(
    a: Seq<Seq<u16>>,
    b: Seq<Seq<u16>>,
    metric: Metric,
    scale: int,
    frames: int,
    bins: int,
) -> int
    decreases frames,
{
    if frames <= 0 {
        0
    } else {
        prefix_distance(a, b, metric, scale, frames - 1, bins) + frame_distance(
            a,
            b,
            metric,
            scale,
            frames - 1,
            bins,
        )
    }
}

/// The distance of `b`, played at `scale`, from the observation `a`: the sum
/// of the cell errors over as many frames as the longer grid has, the shorter
/// one continued by silence.
pub open spec fn distance(a: Seq<Seq<u16>>, b: Seq<Seq<u16>>, metric: Metric, scale: int) -> int {
    let frames = if a.len() >= b.len() {
        a.len()
    } else {
        b.len()
    };
    prefix_distance(a, b, metric, scale, frames as int, bin_count(a) as int)
}

/// The absolute distance over the frames that both grids have: the longer
/// grid is cut to the length of the shorter one, and nothing is padded.
pub open spec fn symmetric_distance(a: Seq<Seq<u16>>, b: Seq<Seq<u16>>, scale: int) -> int {
    let frames = if a.len() <= b.len() {
        a.len()
    } else {
        b.len()
    };
    distance(a.take(frames as int), b.take(frames as int), Metric::SymmetricAbs, scale)
}

/// A silent grid: `frames` frames of `bins` zero magnitudes each.
pub open spec fn silence(frames: nat, bins: nat) -> Seq<Seq<u16>> {
    Seq::new(frames, |t: int| Seq::new(bins, |f: int| 0u16))
}

/// Two grids of the same number of frames and of bins, both rectangular.
pub open spec fn same_shape(a: Seq<Seq<u16>>, b: Seq<Seq<u16>>) -> bool {
    &&& a.len() == b.len()
    &&& rectangular(a)
    &&& rectangular(b)
    &&& bin_count(a) == bin_count(b)
}

/// The larger of `VOLUME_UNIT` and the absolute value of `scale`.
pub open spec fn loudest(scale: int) -> int {
    if scale >= VOLUME_UNIT {
        scale
    } else if -scale >= VOLUME_UNIT {
        -scale
    } else {
        VOLUME_UNIT as int
    }
}

/// No cell error at `scale` exceeds this value.
pub open spec fn cell_error_limit(scale: int) -> int {
    (65_535 * loudest(scale)) * (65_535 * loudest(scale))
}

/// A cell error is never negative and stays within the limit of its scale.
pub proof fn lemma_cell_error_bounds(metric: Metric, observed: u16, reference: u16, scale: int)
    ensures
        0 <= cell_error(metric, observed as int, reference as int, scale) <= cell_error_limit(
            scale,
        ),
{
    let seen = observed as int * VOLUME_UNIT as int;
    let expected = reference as int * scale;
    let most = 65_535 * loudest(scale);
    assert(0 <= seen <= most) by (nonlinear_arith)
        requires
            seen == observed as int * 1_000_000,
            0 <= observed as int <= 65_535,
            most == 65_535 * loudest(scale),
            loudest(scale) >= 1_000_000,
    ;
    assert(-most <= expected <= most) by (nonlinear_arith)
        requires
            expected == reference as int * scale,
            0 <= reference as int <= 65_535,
            most == 65_535 * loudest(scale),
            -loudest(scale) <= scale <= loudest(scale),
    ;
    assert(2 * most <= most * most) by (nonlinear_arith)
        requires
            most >= 2,
    ;
    if seen < expected {
        let missing = expected - seen;
        assert(0 <= missing * missing <= most * most) by (nonlinear_arith)
            requires
                0 < missing <= most,
        ;
    }
}

/// At a scale held in an `i32`, a cell error stays under the 94th power of
/// two.
pub proof fn lemma_cell_error_limit_of_i32(scale: i32)
    ensures
        0 <= cell_error_limit(scale as int) < 0x4000_0000_0000_0000_0000_0000,
{
    let most = 65_535 * loudest(scale as int);
    assert(0 <= most * most < 0x4000_0000_0000_0000_0000_0000) by (nonlinear_arith)
        requires
            0 <= most <= 65_535 * 0x8000_0000,
    ;
}

/// The distance of one frame is never negative and grows with the bins.
pub proof fn lemma_frame_distance_bounds(
    a: Seq<Seq<u16>>,
    b: Seq<Seq<u16>>,
    metric: Metric,
    scale: int,
    t: int,
    bins: int,
)
    requires
        0 <= bins,
    ensures
        0 <= frame_distance(a, b, metric, scale, t, bins) <= bins * cell_error_limit(scale),
    decreases bins,
{
    if bins > 0 {
        lemma_frame_distance_bounds(a, b, metric, scale, t, bins - 1);
        let seen: u16 = if 0 <= t < a.len() {
            a[t][bins - 1]
        } else {
            0
        };
        let wanted: u16 = if 0 <= t < b.len() {
            b[t][bins - 1]
        } else {
            0
        };
        lemma_cell_error_bounds(metric, seen, wanted, scale);
        assert(bins * cell_error_limit(scale) == (bins - 1) * cell_error_limit(scale)
            + cell_error_limit(scale)) by (nonlinear_arith);
    }
}

/// A frame's distance over fewer bins is no more than over more bins.
pub proof fn lemma_frame_distance_grows(
    a: Seq<Seq<u16>>,
    b: Seq<Seq<u16>>,
    metric: Metric,
    scale: int,
    t: int,
    fewer: int,
    bins: int,
)
    requires
        0 <= fewer <= bins,
    ensures
        frame_distance(a, b, metric, scale, t, fewer) <= frame_distance(
            a,
            b,
            metric,
            scale,
            t,
            bins,
        ),
    decreases bins - fewer,
{
    if fewer < bins {
        lemma_frame_distance_grows(a, b, metric, scale, t, fewer, bins - 1);
        let seen: u16 = if 0 <= t < a.len() {
            a[t][bins - 1]
        } else {
            0
        };
        let wanted: u16 = if 0 <= t < b.len() {
            b[t][bins - 1]
        } else {
            0
        };
        lemma_cell_error_bounds(metric, seen, wanted, scale);
    }
}

/// The distance of a prefix is never negative and grows with the frames.
pub proof fn lemma_prefix_distance_bounds(
    a: Seq<Seq<u16>>,
    b: Seq<Seq<u16>>,
    metric: Metric,
    scale: int,
    frames: int,
    bins: int,
)
    requires
        0 <= frames,
        0 <= bins,
    ensures
        0 <= prefix_distance(a, b, metric, scale, frames, bins) <= frames * bins
            * cell_error_limit(scale),
    decreases frames,
{
    if frames > 0 {
        lemma_prefix_distance_bounds(a, b, metric, scale, frames - 1, bins);
        lemma_frame_distance_bounds(a, b, metric, scale, frames - 1, bins);
        assert(frames * bins * cell_error_limit(scale) == (frames - 1) * bins * cell_error_limit(
            scale,
        ) + bins * cell_error_limit(scale)) by (nonlinear_arith);
    }
}

/// The distance between two measurable grids is never negative and stays
/// within the limit of a cell times the most cells that two grids can have.
pub proof fn lemma_distance_bounds(
    a: Seq<Seq<u16>>,
    b: Seq<Seq<u16>>,
    metric: Metric,
    scale: int,
)
    requires
        measurable(a),
        measurable(b),
    ensures
        0 <= distance(a, b, metric, scale) <= 0x1_0000_0000 * cell_error_limit(scale),
{
    let frames = if a.len() >= b.len() {
        a.len() as int
    } else {
        b.len() as int
    };
    let bins = bin_count(a) as int;
    let limit = cell_error_limit(scale);
    lemma_prefix_distance_bounds(a, b, metric, scale, frames, bins);
    assert(0 <= limit) by (nonlinear_arith)
        requires
            limit == (65_535 * loudest(scale)) * (65_535 * loudest(scale)),
    ;
    assert(frames * bins * limit <= 0x1_0000_0000 * limit) by (nonlinear_arith)
        requires
            0 <= frames <= 0x1_0000,
            0 <= bins <= 0x1_0000,
            0 <= limit,
    ;
}

/// Tells whether a distance accepts the grid.
pub fn is_measurable(grid: &[Vec<u16>]) -> (ok: bool)
    ensures
        ok == measurable(grid.deep_view()),
{
    let ghost frames = grid.deep_view();
    if grid.len() == 0 || grid.len() > MAX_FRAMES {
        return false;
    }
    assert(frames[0] == grid@[0]@);
    let bins = grid[0].len();
    if bins > MAX_BINS {
        return false;
    }
    let mut t: usize = 1;
    while t < grid.len()
        invariant
            frames == grid.deep_view(),
            1 <= t <= grid@.len(),
            bins == frames[0].len(),
            forall|k: int| 0 <= k < t ==> (#[trigger] frames[k]).len() == bins,
        decreases grid@.len() - t,
    {
        assert(frames[t as int] == grid@[t as int]@);
        if grid[t].len() != bins {
            return false;
        }
        t = t + 1;
    }
    true
}

/// The error of one cell, computed.
fn cell_error_of(metric: Metric, observed: u16, reference: u16, scale: i32) -> (error: u128)
    ensures
        error == cell_error(metric, observed as int, reference as int, scale as int),
{
    proof {
        lemma_cell_error_bounds(metric, observed, reference, scale as int);
        lemma_cell_error_limit_of_i32(scale);
    }
    let seen: i64 = observed as i64 * 1_000_000;
    assert(-65_535 * 0x8000_0000 <= reference as int * scale as int <= 65_535 * 0x8000_0000)
        by (nonlinear_arith)
        requires
            0 <= reference as int <= 65_535,
            -0x8000_0000 <= scale as int <= 0x8000_0000,
    ;
    let expected: i64 = reference as i64 * scale as i64;
    if seen >= expected {
        match metric {
            Metric::Asymmetric => 0,
            Metric::SymmetricAbs => (seen - expected) as u128,
        }
    } else {
        let missing: u128 = (expected - seen) as u128;
        match metric {
            Metric::Asymmetric => missing * missing,
            Metric::SymmetricAbs => missing,
        }
    }
}

/// The distance of the reference `sample`, played at `sample_volume`, from the
/// observation `song_part` under the cell error `dist`. The grids may differ in
/// length: the shorter one is continued by silence.
pub fn calculate_distance(
    song_part: &[Vec<u16>],
    sample: &[Vec<u16>],
    dist: Metric,
    sample_volume: i32,
) -> (total: u128)
    requires
        measurable(song_part.deep_view()),
        measurable(sample.deep_view()),
        bin_count(song_part.deep_view()) == bin_count(sample.deep_view()),
    ensures
        total == distance(song_part.deep_view(), sample.deep_view(), dist, sample_volume as int),
{
    let ghost a = song_part.deep_view();
    let ghost b = sample.deep_view();
    let frames: usize = if song_part.len() >= sample.len() {
        song_part.len()
    } else {
        sample.len()
    };
    assert(a[0] == song_part@[0]@);
    let bins: usize = song_part[0].len();
    let mut total: u128 = 0;
    let mut x: usize = 0;
    while x < frames
        invariant
            a == song_part.deep_view(),
            b == sample.deep_view(),
            measurable(a),
            measurable(b),
            bins == bin_count(a) == bin_count(b),
            frames == if a.len() >= b.len() { a.len() } else { b.len() },
            x <= frames,
            total == prefix_distance(a, b, dist, sample_volume as int, x as int, bins as int),
        decreases frames - x,
    {
        let mut y: usize = 0;
        let ghost before = total;
        while y < bins
            invariant
                a == song_part.deep_view(),
                b == sample.deep_view(),
                measurable(a),
                measurable(b),
                bins == bin_count(a) == bin_count(b),
                frames == if a.len() >= b.len() { a.len() } else { b.len() },
                x < frames,
                y <= bins,
                before == prefix_distance(a, b, dist, sample_volume as int, x as int, bins as int),
                total == before + frame_distance(
                    a,
                    b,
                    dist,
                    sample_volume as int,
                    x as int,
                    y as int,
                ),
            decreases bins - y,
        {
            let song_part_val: u16 = if x < song_part.len() {
                assert(a[x as int] == song_part@[x as int]@);
                song_part[x][y]
            } else {
                0
            };
            let sample_val: u16 = if x < sample.len() {
                assert(b[x as int] == sample@[x as int]@);
                sample[x][y]
            } else {
                0
            };
            let error = cell_error_of(dist, song_part_val, sample_val, sample_volume);
            proof {
                let scale = sample_volume as int;
                let limit = cell_error_limit(scale);
                lemma_cell_error_limit_of_i32(sample_volume);
                lemma_prefix_distance_bounds(a, b, dist, scale, x + 1, bins as int);
                lemma_frame_distance_bounds(a, b, dist, scale, x as int, y + 1);
                lemma_frame_distance_grows(a, b, dist, scale, x as int, y + 1, bins as int);
                assert((x + 1) * bins * limit <= 0x1_0000 * 0x1_0000 * limit) by (nonlinear_arith)
                    requires
                        0 <= x + 1 <= 0x1_0000,
                        0 <= bins <= 0x1_0000,
                        0 <= limit,
                ;
                assert(0x1_0000 * 0x1_0000 * limit == 0x1_0000_0000 * limit);
                assert(total + error == prefix_distance(a, b, dist, scale, x as int, bins as int)
                    + frame_distance(a, b, dist, scale, x as int, y + 1));
            }
            total = total + error;
            y = y + 1;
        }
        x = x + 1;
    }
    total
}

/// The asymmetric distance of the reference `sample`, played at
/// `sample_volume`, from the observation `song_part`: only what the
/// observation lacks counts, and the shorter grid is continued by silence.
pub fn calculate_assymetric_distance(
    song_part: &[Vec<u16>],
    sample: &Vec<Vec<u16>>,
    sample_volume: i32,
) -> (total: u128)
    requires
        measurable(song_part.deep_view()),
        measurable(sample.deep_view()),
        bin_count(song_part.deep_view()) == bin_count(sample.deep_view()),
    ensures
        total == distance(
            song_part.deep_view(),
            sample.deep_view(),
            Metric::Asymmetric,
            sample_volume as int,
        ),
{
    let reference = sample.as_slice();
    assert(reference.deep_view() =~= sample.deep_view());
    calculate_distance(song_part, reference, Metric::Asymmetric, sample_volume)
}

/// The absolute distance of the reference `sample`, played at `sample_volume`,
/// from the observation `song_part`, over the frames that both have: the
/// longer grid is cut to the length of the shorter one.
pub fn calculate_symetric_distance(
    song_part: &[Vec<u16>],
    sample: &[Vec<u16>],
    sample_volume: i32,
) -> (total: u128)
    requires
        measurable(song_part.deep_view()),
        measurable(sample.deep_view()),
        bin_count(song_part.deep_view()) == bin_count(sample.deep_view()),
    ensures
        total == symmetric_distance(
            song_part.deep_view(),
            sample.deep_view(),
            sample_volume as int,
        ),
{
    let cut_sample = if sample.len() > song_part.len() {
        slice_subrange(sample, 0, song_part.len())
    } else {
        sample
    };
    let cut_songpart = if sample.len() < song_part.len() {
        slice_subrange(song_part, 0, sample.len())
    } else {
        song_part
    };
    proof {
        let frames = cut_sample@.len() as int;
        assert(cut_sample.deep_view() =~= sample.deep_view().take(frames));
        assert(cut_songpart.deep_view() =~= song_part.deep_view().take(frames));
    }
    calculate_distance(cut_songpart, cut_sample, Metric::SymmetricAbs, sample_volume)
}

/// Grids that agree on every cell of a frame, silence included, are equally
/// far apart on that frame.
pub proof fn lemma_frame_distance_agrees(
    a: Seq<Seq<u16>>,
    b: Seq<Seq<u16>>,
    c: Seq<Seq<u16>>,
    d: Seq<Seq<u16>>,
    metric: Metric,
    scale: int,
    t: int,
    bins: int,
)
    requires
        forall|f: int| 0 <= f < bins ==> magnitude(a, t, f) == magnitude(c, t, f),
        forall|f: int| 0 <= f < bins ==> magnitude(b, t, f) == magnitude(d, t, f),
    ensures
        frame_distance(a, b, metric, scale, t, bins) == frame_distance(
            c,
            d,
            metric,
            scale,
            t,
            bins,
        ),
    decreases bins,
{
    if bins > 0 {
        lemma_frame_distance_agrees(a, b, c, d, metric, scale, t, bins - 1);
    }
}

/// Grids that agree on every cell of the first frames, silence included, are
/// equally far apart on them.
pub proof fn lemma_prefix_distance_agrees(
    a: Seq<Seq<u16>>,
    b: Seq<Seq<u16>>,
    c: Seq<Seq<u16>>,
    d: Seq<Seq<u16>>,
    metric: Metric,
    scale: int,
    frames: int,
    bins: int,
)
    requires
        forall|t: int, f: int|
            0 <= t < frames && 0 <= f < bins ==> magnitude(a, t, f) == magnitude(c, t, f),
        forall|t: int, f: int|
            0 <= t < frames && 0 <= f < bins ==> magnitude(b, t, f) == magnitude(d, t, f),
    ensures
        prefix_distance(a, b, metric, scale, frames, bins) == prefix_distance(
            c,
            d,
            metric,
            scale,
            frames,
            bins,
        ),
    decreases frames,
{
    if frames > 0 {
        lemma_prefix_distance_agrees(a, b, c, d, metric, scale, frames - 1, bins);
        lemma_frame_distance_agrees(a, b, c, d, metric, scale, frames - 1, bins);
    }
}

/// Frames past the end of both grids add nothing to their distance.
pub proof fn lemma_prefix_distance_past_the_end(
    a: Seq<Seq<u16>>,
    b: Seq<Seq<u16>>,
    metric: Metric,
    scale: int,
    frames: int,
    bins: int,
)
    requires
        a.len() <= frames,
        b.len() <= frames,
    ensures
        prefix_distance(a, b, metric, scale, frames, bins) == prefix_distance(
            a,
            b,
            metric,
            scale,
            if a.len() >= b.len() {
                a.len() as int
            } else {
                b.len() as int
            },
            bins,
        ),
    decreases frames,
{
    if frames > a.len() && frames > b.len() {
        lemma_prefix_distance_past_the_end(a, b, metric, scale, frames - 1, bins);
        lemma_frame_distance_zero(a, b, metric, scale, frames - 1, bins);
    }
}

/// A frame whose cells all have error zero has distance zero.
proof fn lemma_frame_distance_zero(
    a: Seq<Seq<u16>>,
    b: Seq<Seq<u16>>,
    metric: Metric,
    scale: int,
    t: int,
    bins: int,
)
    requires
        forall|f: int|
            0 <= f < bins ==> cell_error(
                metric,
                #[trigger] magnitude(a, t, f),
                magnitude(b, t, f),
                scale,
            ) == 0,
    ensures
        frame_distance(a, b, metric, scale, t, bins) == 0,
    decreases bins,
{
    if bins > 0 {
        lemma_frame_distance_zero(a, b, metric, scale, t, bins - 1);
    }
}

/// Frames whose cells all have error zero have distance zero.
proof fn lemma_prefix_distance_zero(
    a: Seq<Seq<u16>>,
    b: Seq<Seq<u16>>,
    metric: Metric,
    scale: int,
    frames: int,
    bins: int,
)
    requires
        forall|t: int, f: int|
            0 <= t < frames && 0 <= f < bins ==> cell_error(
                metric,
                #[trigger] magnitude(a, t, f),
                magnitude(b, t, f),
                scale,
            ) == 0,
    ensures
        prefix_distance(a, b, metric, scale, frames, bins) == 0,
    decreases frames,
{
    if frames > 0 {
        lemma_prefix_distance_zero(a, b, metric, scale, frames - 1, bins);
        lemma_frame_distance_zero(a, b, metric, scale, frames - 1, bins);
    }
}

/// Any grid is at absolute distance zero from itself played at unit volume,
/// padded or cut.
pub proof fn lemma_distance_to_itself_is_zero(a: Seq<Seq<u16>>)
    ensures
        distance(a, a, Metric::SymmetricAbs, VOLUME_UNIT as int) == 0,
        symmetric_distance(a, a, VOLUME_UNIT as int) == 0,
{
    lemma_prefix_distance_zero(
        a,
        a,
        Metric::SymmetricAbs,
        VOLUME_UNIT as int,
        a.len() as int,
        bin_count(a) as int,
    );
    assert(a.take(a.len() as int) =~= a);
}

/// Where the observation is at least the reference in every cell, the
/// asymmetric distance at unit volume is zero.
pub proof fn lemma_asymmetric_zero_at_or_above(a: Seq<Seq<u16>>, b: Seq<Seq<u16>>)
    requires
        same_shape(a, b),
        forall|t: int, f: int|
            0 <= t < a.len() && 0 <= f < bin_count(a) ==> a[t][f] >= b[t][f],
    ensures
        distance(a, b, Metric::Asymmetric, VOLUME_UNIT as int) == 0,
{
    lemma_prefix_distance_zero(
        a,
        b,
        Metric::Asymmetric,
        VOLUME_UNIT as int,
        a.len() as int,
        bin_count(a) as int,
    );
}

/// Where the observation is below the reference in every cell, and there is
/// a cell, the asymmetric distance at unit volume is positive; with the two
/// grids exchanged it is zero, so the distance is not symmetric.
pub proof fn lemma_asymmetric_positive_below(a: Seq<Seq<u16>>, b: Seq<Seq<u16>>)
    requires
        same_shape(a, b),
        a.len() > 0,
        bin_count(a) > 0,
        forall|t: int, f: int| 0 <= t < a.len() && 0 <= f < bin_count(a) ==> a[t][f] < b[t][f],
    ensures
        distance(a, b, Metric::Asymmetric, VOLUME_UNIT as int) > 0,
        distance(b, a, Metric::Asymmetric, VOLUME_UNIT as int) == 0,
{
    let frames = a.len() as int;
    let bins = bin_count(a) as int;
    let unit = VOLUME_UNIT as int;
    lemma_prefix_distance_zero(b, a, Metric::Asymmetric, unit, frames, bins);
    lemma_prefix_distance_bounds(a, b, Metric::Asymmetric, unit, frames - 1, bins);
    lemma_frame_distance_bounds(a, b, Metric::Asymmetric, unit, frames - 1, bins - 1);
    let seen = a[frames - 1][bins - 1] as int;
    let wanted = b[frames - 1][bins - 1] as int;
    assert(seen < wanted);
    assert(cell_error(Metric::Asymmetric, seen, wanted, unit) > 0) by (nonlinear_arith)
        requires
            seen < wanted,
            unit == 1_000_000,
            cell_error(Metric::Asymmetric, seen, wanted, unit) == (wanted * unit - seen * unit) * (
            wanted * unit - seen * unit),
    ;
    assert(magnitude(a, frames - 1, bins - 1) == seen);
    assert(magnitude(b, frames - 1, bins - 1) == wanted);
}

/// Padding by silence changes nothing: a reference with fewer frames than the
/// observation is as far from it as the same reference continued by silent
/// frames up to the observation's length.
pub proof fn lemma_zero_padding(a: Seq<Seq<u16>>, b: Seq<Seq<u16>>, metric: Metric, scale: int)
    requires
        b.len() < a.len(),
    ensures
        distance(a, b, metric, scale) == distance(
            a,
            b + silence((a.len() - b.len()) as nat, bin_count(a)),
            metric,
            scale,
        ),
{
    let padded = b + silence((a.len() - b.len()) as nat, bin_count(a));
    assert(padded.len() == a.len());
    assert forall|t: int, f: int| 0 <= t < a.len() && 0 <= f < bin_count(a) implies magnitude(
        b,
        t,
        f,
    ) == magnitude(padded, t, f) by {
        if t >= b.len() {
            assert(padded[t] == silence((a.len() - b.len()) as nat, bin_count(a))[t - b.len()]);
        }
    }
    lemma_prefix_distance_agrees(
        a,
        b,
        a,
        padded,
        metric,
        scale,
        a.len() as int,
        bin_count(a) as int,
    );
}

} // verus!
