//! Offline search for song boundaries in the level curve of one recording.
//!
//! The curve is sampled at a fixed hop of `hop_us` microseconds, so sample
//! `i` stands at `i * hop_us`. Levels are hundredths of a decibel. A search
//! runs in stages: candidate valleys inside the music region, then three
//! filters (proximity, score gap, depth), each a function of its own.

use crate::audio_analysis::{
    estimate_music_level, estimate_noise_floor, level_mean, mean_level, music_level_of,
    noise_floor_of, SILENCE_LEVEL,
};
use crate::cuefile::Valley;
use crate::musicbrainz::ExpectedTrack;
use crate::numeric::{is_isqrt, isqrt, isqrt_of, sort_scores, sorted_scores};
use vstd::prelude::*;

verus! {

/// Longest curve, in microseconds, that a search accepts (about 46 days).
pub const MAX_CURVE_US: u64 = 4_000_000_000_000;

/// Radius, in microseconds, within which a valley has to be the minimum.
pub const SEARCH_RADIUS_US: u64 = 5_000_000;

/// Length, in microseconds, of the context measured on each side of a valley.
pub const CONTEXT_US: u64 = 15_000_000;

/// Margin below the noise floor that a boundary has to reach, in hundredths
/// of a decibel.
pub const DEPTH_MARGIN: i32 = 500;

/// Number of whole hops in `duration_us`.
pub open spec fn hops_in(duration_us: int, hop_us: int) -> int {
    duration_us / hop_us
}

/// End of the searched region: the music end, cut to the curve.
pub open spec fn region_end(curve_len: int, music_end_idx: int) -> int {
    if music_end_idx < curve_len {
        music_end_idx
    } else {
        curve_len
    }
}

/// First sample that is searched for valleys: the search radius after the
/// music start.
pub open spec fn search_first(music_start_idx: int, hop_us: int) -> int {
    music_start_idx + hops_in(SEARCH_RADIUS_US as int, hop_us)
}

/// End, exclusive, of the samples that are searched for valleys: the
/// search radius before the end of the region.
pub open spec fn search_end(curve_len: int, music_end_idx: int, hop_us: int) -> int {
    region_end(curve_len, music_end_idx) - hops_in(SEARCH_RADIUS_US as int, hop_us)
}

/// `short[i]` is strictly below every other sample within `radius` of it.
pub open spec fn is_strict_minimum(short: Seq<i16>, len: int, radius: int, i: int) -> bool {
    forall|j: int|
        i - radius <= j <= i + radius && 0 <= j < len && j != i ==> #[trigger] short[j] > short[i]
}

/// First sample of the context before `i`.
pub open spec fn left_from(i: int, radius: int, context: int, start: int) -> int {
    if i > context + radius {
        i - context - radius
    } else {
        start
    }
}

/// End, exclusive, of the context before `i`.
pub open spec fn left_to(i: int, radius: int) -> int {
    if i >= radius / 2 {
        i - radius / 2
    } else {
        0
    }
}

/// First sample of the context after `i`.
pub open spec fn right_from(i: int, radius: int, len: int) -> int {
    if i + radius / 2 <= len - 1 {
        i + radius / 2
    } else {
        len - 1
    }
}

/// End, exclusive, of the context after `i`.
pub open spec fn right_to(i: int, radius: int, context: int, len: int) -> int {
    if i + context + radius <= len {
        i + context + radius
    } else {
        len
    }
}

/// Level of one context: its mean, or the reference where it is empty.
pub open spec fn context_level(short: Seq<i16>, from: int, to: int, reference: int) -> int {
    if to > from {
        level_mean(short, from, to)
    } else {
        reference
    }
}

/// Start of the stretch around `w` whose doubled levels stay below `limit2`,
/// not reaching below `floor`.
pub open spec fn width_start(short: Seq<i16>, floor: int, limit2: int, w: int) -> int
    decreases w,
{
    if w > floor && w > 0 && 2 * short[w - 1] < limit2 {
        width_start(short, floor, limit2, w - 1)
    } else {
        w
    }
}

/// Last sample of the stretch around `w` whose doubled levels stay below
/// `limit2`, not reaching `len - 1`.
pub open spec fn width_end(short: Seq<i16>, len: int, limit2: int, w: int) -> int
    decreases len - w,
{
    if w < len - 1 && 2 * short[w + 1] < limit2 {
        width_end(short, len, limit2, w + 1)
    } else {
        w
    }
}

/// Score of a valley: the smaller dip, weighted by prominence and by the
/// square root of the width. With levels in hundredths of a decibel and the
/// width in microseconds this is the dip in decibels times
/// `1 + prominence / 10` times `1 + sqrt(width in seconds)`, scaled by 10^8.
pub open spec fn valley_score(min_dip: int, prominence: int, width_us: int) -> int {
    min_dip * (1000 + prominence) * (1000 + isqrt_of(width_us))
}

/// The smaller of two integers.
pub open spec fn lesser(a: int, b: int) -> int {
    if a <= b {
        a
    } else {
        b
    }
}

/// The valley measured at sample `i` of a region `start..len`.
pub open spec fn valley_at(
    short: Seq<i16>,
    long: Seq<i16>,
    start: int,
    len: int,
    hop_us: int,
    i: int,
) -> Valley {
    let radius = hops_in(SEARCH_RADIUS_US as int, hop_us);
    let context = hops_in(CONTEXT_US as int, hop_us);
    let current = short[i] as int;
    let reference = long[i] as int;
    let prominence = reference - current;
    let left = context_level(
        short,
        left_from(i, radius, context, start),
        left_to(i, radius),
        reference,
    );
    let right = context_level(
        short,
        right_from(i, radius, len),
        right_to(i, radius, context, len),
        reference,
    );
    let limit2 = current + reference;
    let width_us = (width_end(short, len, limit2, i) - width_start(short, start, limit2, i))
        * hop_us;
    Valley {
        position_us: (i * hop_us) as u64,
        depth: short[i],
        prominence: prominence as i32,
        left_level: left as i16,
        right_level: right as i16,
        width_us: width_us as u64,
        score: valley_score(lesser(left - current, right - current), prominence, width_us) as i64,
    }
}

/// Whether the valley measured at `i` qualifies as a candidate: a strict
/// minimum within the search radius, prominent enough against the long-term
/// reference, and with a dip of at least half the minimum prominence on
/// both sides.
pub open spec fn is_candidate(
    short: Seq<i16>,
    long: Seq<i16>,
    start: int,
    len: int,
    hop_us: int,
    min_prominence: int,
    i: int,
) -> bool {
    let v = valley_at(short, long, start, len, hop_us, i);
    &&& is_strict_minimum(short, len, hops_in(SEARCH_RADIUS_US as int, hop_us), i)
    &&& v.prominence >= min_prominence
    &&& 2 * lesser(v.left_level - v.depth, v.right_level - v.depth) >= min_prominence
}

/// The candidates among the samples `first..upto`, in file order.
pub open spec fn candidates_in(
    short: Seq<i16>,
    long: Seq<i16>,
    start: int,
    len: int,
    hop_us: int,
    min_prominence: int,
    first: int,
    upto: int,
) -> Seq<Valley>
    decreases upto - first,
{
    if upto <= first {
        Seq::empty()
    } else {
        let before = candidates_in(short, long, start, len, hop_us, min_prominence, first, upto - 1);
        if is_candidate(short, long, start, len, hop_us, min_prominence, upto - 1) {
            before.push(valley_at(short, long, start, len, hop_us, upto - 1))
        } else {
            before
        }
    }
}

/// All candidates of the region between `music_start_idx` and
/// `music_end_idx`: none where the region holds ten samples or fewer,
/// else those among the samples at least a search radius inside it.
pub open spec fn candidates_of(
    short: Seq<i16>,
    long: Seq<i16>,
    music_start_idx: int,
    music_end_idx: int,
    hop_us: int,
    min_prominence: int,
) -> Seq<Valley> {
    let len = region_end(short.len() as int, music_end_idx);
    let radius = hops_in(SEARCH_RADIUS_US as int, hop_us);
    if len <= music_start_idx + 10 {
        Seq::empty()
    } else {
        candidates_in(
            short,
            long,
            music_start_idx,
            len,
            hop_us,
            min_prominence,
            music_start_idx + radius,
            len - radius,
        )
    }
}

/// Positions grow strictly along `s`.
pub open spec fn positions_increase(s: Seq<Valley>) -> bool {
    forall|a: int, b: int| 0 <= a < b < s.len() ==> s[a].position_us < s[b].position_us
}

/// Every valley of `s` stands on a sample from `first` up to, not
/// including, `upto`.
pub open spec fn positions_within(s: Seq<Valley>, hop_us: int, first: int, upto: int) -> bool {
    forall|a: int|
        0 <= a < s.len() ==> first * hop_us <= (#[trigger] s[a]).position_us < upto * hop_us
}

/// Every valley of `s` stands on a sample of the curve.
pub open spec fn positions_on_samples(s: Seq<Valley>, hop_us: int) -> bool {
    forall|a: int| 0 <= a < s.len() ==> (#[trigger] s[a]).position_us as int % hop_us == 0
}

/// A product of three bounded factors is bounded by the product of the
/// bounds.
proof fn lemma_score_bound(a: int, b: int, c: int)
    requires
        -65535 <= a <= 65535,
        -66535 <= b <= 66535,
        0 <= c <= 2_001_000,
    ensures
        -8_726_000_000_000_000 <= a * b * c <= 8_726_000_000_000_000,
{
    assert(-65535 * 66535 <= a * b <= 65535 * 66535) by (nonlinear_arith)
        requires
            -65535 <= a <= 65535,
            -66535 <= b <= 66535,
    ;
    let ab = a * b;
    assert(-4_360_371_225 * 2_001_000 <= ab * c <= 4_360_371_225 * 2_001_000) by (nonlinear_arith)
        requires
            -4_360_371_225 <= ab <= 4_360_371_225,
            0 <= c <= 2_001_000,
    ;
}

/// The root of a width that fits the longest curve is small.
proof fn lemma_root_bound(width: int, root: int)
    requires
        0 <= width <= MAX_CURVE_US,
        is_isqrt(width, root),
    ensures
        root <= 2_000_000,
{
    if root > 2_000_000 {
        assert(root * root > 4_000_000_000_000) by (nonlinear_arith)
            requires
                root >= 2_000_001,
        ;
    }
}

/// A curve of `n` samples at a hop of `hop_us` that fits the longest curve
/// has boundedly many samples, and each sample a bounded position.
proof fn lemma_curve_bounds(n: int, hop_us: int, i: int)
    requires
        hop_us > 0,
        0 <= i <= n,
        n * hop_us <= MAX_CURVE_US,
    ensures
        n <= MAX_CURVE_US,
        0 <= i * hop_us <= n * hop_us,
{
    assert(n <= n * hop_us) by (nonlinear_arith)
        requires
            hop_us >= 1,
            n >= 0,
    ;
    assert(0 <= i * hop_us <= n * hop_us) by (nonlinear_arith)
        requires
            hop_us >= 1,
            0 <= i <= n,
    ;
}

fn context_mean(short: &Vec<i16>, from: u64, to: u64, reference: i16) -> (r: i16)
    requires
        to <= short.len(),
    ensures
        r == context_level(short@, from as int, to as int, reference as int),
{
    if to > from {
        mean_level(short, from as usize, to as usize)
    } else {
        reference
    }
}

/// Measures the valley at sample `i` of the region `start..len`.
fn measure_valley(
    short: &Vec<i16>,
    long: &Vec<i16>,
    start: usize,
    len: usize,
    hop_us: u64,
    i: usize,
) -> (v: Valley)
    requires
        hop_us > 0,
        short.len() == long.len(),
        short.len() * hop_us <= MAX_CURVE_US,
        start <= i < len <= short.len(),
    ensures
        v == valley_at(short@, long@, start as int, len as int, hop_us as int, i as int),
        v.position_us == i * hop_us,
{
    proof {
        lemma_curve_bounds(short.len() as int, hop_us as int, i as int);
        lemma_curve_bounds(short.len() as int, hop_us as int, len as int);
    }
    let radius: u64 = SEARCH_RADIUS_US / hop_us;
    let context: u64 = CONTEXT_US / hop_us;
    let at: u64 = i as u64;
    let end: u64 = len as u64;
    let current: i16 = short[i];
    let reference: i16 = long[i];
    let prominence: i32 = reference as i32 - current as i32;
    let lf: u64 = if at > context + radius { at - context - radius } else { start as u64 };
    let lt: u64 = if at >= radius / 2 { at - radius / 2 } else { 0 };
    let left: i16 = context_mean(short, lf, lt, reference);
    let rf: u64 = if at + radius / 2 <= end - 1 { at + radius / 2 } else { end - 1 };
    let rt: u64 = if at + context + radius <= end { at + context + radius } else { end };
    let right: i16 = context_mean(short, rf, rt, reference);
    let limit2: i32 = current as i32 + reference as i32;
    let mut ws: usize = i;
    while ws > start && 2 * (short[ws - 1] as i32) < limit2
        invariant
            start <= ws <= i < short.len(),
            width_start(short@, start as int, limit2 as int, i as int) == width_start(
                short@,
                start as int,
                limit2 as int,
                ws as int,
            ),
        decreases ws,
    {
        ws -= 1;
    }
    let mut we: usize = i;
    while we < len - 1 && 2 * (short[we + 1] as i32) < limit2
        invariant
            i <= we < len <= short.len(),
            width_end(short@, len as int, limit2 as int, i as int) == width_end(
                short@,
                len as int,
                limit2 as int,
                we as int,
            ),
        decreases len - we,
    {
        we += 1;
    }
    proof {
        lemma_curve_bounds(short.len() as int, hop_us as int, (we - ws) as int);
    }
    let width_us: u64 = (we - ws) as u64 * hop_us;
    let root: u64 = isqrt(width_us);
    let left_dip: i64 = left as i64 - current as i64;
    let right_dip: i64 = right as i64 - current as i64;
    let min_dip: i64 = if left_dip <= right_dip { left_dip } else { right_dip };
    let weight: i64 = 1000 + prominence as i64;
    let spread: i64 = 1000 + root as i64;
    proof {
        lemma_root_bound(width_us as int, root as int);
        lemma_score_bound(min_dip as int, weight as int, spread as int);
        assert(-65535 * 66535 <= min_dip * weight <= 65535 * 66535) by (nonlinear_arith)
            requires
                -65535 <= min_dip <= 65535,
                -66535 <= weight <= 66535,
        ;
    }
    let score: i64 = min_dip * weight * spread;
    Valley {
        position_us: at * hop_us,
        depth: current,
        prominence,
        left_level: left,
        right_level: right,
        width_us,
        score,
    }
}

/// Decides whether sample `i` is a strict minimum within `radius` samples.
fn strict_minimum(short: &Vec<i16>, len: usize, radius: u64, i: usize) -> (r: bool)
    requires
        i < len <= short.len(),
        radius <= SEARCH_RADIUS_US,
        len <= MAX_CURVE_US,
    ensures
        r == is_strict_minimum(short@, len as int, radius as int, i as int),
{
    let lo: usize = if i as u64 >= radius { (i as u64 - radius) as usize } else { 0 };
    let hi: usize = if i as u64 + radius <= (len - 1) as u64 {
        (i as u64 + radius) as usize
    } else {
        len - 1
    };
    let mut j: usize = lo;
    while j <= hi
        invariant
            lo <= j <= hi + 1,
            hi < len <= short.len(),
            i < len,
            lo == if i >= radius { i - radius } else { 0 },
            hi == if i + radius <= len - 1 { i + radius } else { len - 1 },
            forall|k: int| lo <= k < j && k != i ==> #[trigger] short@[k] > short@[i as int],
        decreases hi + 1 - j,
    {
        if j != i && short[j] <= short[i] {
            assert(i - radius <= j <= i + radius && !(short@[j as int] > short@[i as int]));
            return false;
        }
        j += 1;
    }
    assert forall|k: int|
        i - radius <= k <= i + radius && 0 <= k < len && k != i implies #[trigger] short@[k]
        > short@[i as int] by {
        assert(lo <= k < j);
    }
    true
}

/// Finds the candidate valleys of the region between `music_start_idx` and
/// `music_end_idx`, in file order.
pub fn find_candidates(
    short: &Vec<i16>,
    long: &Vec<i16>,
    music_start_idx: usize,
    music_end_idx: usize,
    hop_us: u64,
    min_prominence: i16,
) -> (r: Vec<Valley>)
    requires
        hop_us > 0,
        short.len() == long.len(),
        short.len() * hop_us <= MAX_CURVE_US,
    ensures
        r@ == candidates_of(
            short@,
            long@,
            music_start_idx as int,
            music_end_idx as int,
            hop_us as int,
            min_prominence as int,
        ),
        positions_increase(r@),
        positions_within(
            r@,
            hop_us as int,
            search_first(music_start_idx as int, hop_us as int),
            search_end(short@.len() as int, music_end_idx as int, hop_us as int),
        ),
        positions_on_samples(r@, hop_us as int),
{
    let mut out: Vec<Valley> = Vec::new();
    let len: usize = if music_end_idx < short.len() { music_end_idx } else { short.len() };
    if len <= music_start_idx || len - music_start_idx <= 10 {
        return out;
    }
    proof {
        lemma_curve_bounds(short.len() as int, hop_us as int, len as int);
    }
    let radius: u64 = SEARCH_RADIUS_US / hop_us;
    if (len - music_start_idx) as u64 <= radius || len as u64 <= radius {
        return out;
    }
    let first: usize = (music_start_idx as u64 + radius) as usize;
    let last: usize = (len as u64 - radius) as usize;
    if first >= last {
        return out;
    }
    let mut i: usize = first;
    while i < last
        invariant
            hop_us > 0,
            short.len() == long.len(),
            short.len() * hop_us <= MAX_CURVE_US,
            music_start_idx <= first <= i <= last,
            first == music_start_idx + radius,
            last == len - radius,
            last <= len <= short.len(),
            len <= MAX_CURVE_US,
            radius == hops_in(SEARCH_RADIUS_US as int, hop_us as int),
            radius <= SEARCH_RADIUS_US,
            out@ == candidates_in(
                short@,
                long@,
                music_start_idx as int,
                len as int,
                hop_us as int,
                min_prominence as int,
                first as int,
                i as int,
            ),
            positions_increase(out@),
            positions_within(out@, hop_us as int, first as int, i as int),
            positions_on_samples(out@, hop_us as int),
        decreases last - i,
    {
        let v = measure_valley(short, long, music_start_idx, len, hop_us, i);
        let is_min = strict_minimum(short, len, radius, i);
        let left_dip: i32 = v.left_level as i32 - v.depth as i32;
        let right_dip: i32 = v.right_level as i32 - v.depth as i32;
        let min_dip: i32 = if left_dip <= right_dip { left_dip } else { right_dip };
        let ghost before = out@;
        proof {
            vstd::arithmetic::div_mod::lemma_mod_multiples_basic(i as int, hop_us as int);
        }
        if is_min && v.prominence >= min_prominence as i32 && 2 * min_dip >= min_prominence as i32 {
            out.push(v);
        }
        proof {
            assert forall|a: int| 0 <= a < before.len() implies (#[trigger] before[a]).position_us
                < (i + 1) * hop_us && before[a].position_us < v.position_us by {
                assert(i * hop_us <= (i + 1) * hop_us) by (nonlinear_arith)
                    requires
                        hop_us > 0,
                ;
            }
            assert(i * hop_us < (i + 1) * hop_us) by (nonlinear_arith)
                requires
                    hop_us > 0,
            ;
            assert(first * hop_us <= i * hop_us) by (nonlinear_arith)
                requires
                    hop_us > 0,
                    first <= i,
            ;
        }
        i += 1;
    }
    out
}

/// The valleys of `s[..upto]` that `mask` selects, in their order.
pub open spec fn masked(s: Seq<Valley>, mask: Seq<bool>, upto: int) -> Seq<Valley>
    decreases upto,
{
    if upto <= 0 {
        Seq::empty()
    } else if mask[upto - 1] {
        masked(s, mask, upto - 1).push(s[upto - 1])
    } else {
        masked(s, mask, upto - 1)
    }
}

/// `v` is one of the valleys of `s[..upto]` that `mask` selects.
pub open spec fn selects(s: Seq<Valley>, mask: Seq<bool>, upto: int, v: Valley) -> bool {
    exists|k: int| 0 <= k < upto && #[trigger] mask[k] && s[k] == v
}

/// Every valley of a selection is one of the valleys that the mask
/// selects.
pub proof fn lemma_masked_members(s: Seq<Valley>, mask: Seq<bool>, upto: int)
    requires
        0 <= upto <= s.len(),
        mask.len() == s.len(),
    ensures
        masked(s, mask, upto).len() <= upto,
        forall|a: int|
            0 <= a < masked(s, mask, upto).len() ==> selects(
                s,
                mask,
                upto,
                #[trigger] masked(s, mask, upto)[a],
            ),
    decreases upto,
{
    if upto > 0 {
        lemma_masked_members(s, mask, upto - 1);
        let prev = masked(s, mask, upto - 1);
        let cur = masked(s, mask, upto);
        assert forall|a: int| 0 <= a < cur.len() implies selects(s, mask, upto, #[trigger] cur[a]) by {
            if a < prev.len() {
                assert(selects(s, mask, upto - 1, prev[a]));
                let k = choose|k: int| 0 <= k < upto - 1 && #[trigger] mask[k] && s[k] == prev[a];
                assert(0 <= k < upto && mask[k] && s[k] == cur[a]);
            } else {
                assert(mask[upto - 1] && s[upto - 1] == cur[a]);
            }
        }
    }
}

/// A relation that holds between any two selected valleys of `s`, taken
/// in order, holds between any two valleys of the selection.
pub proof fn lemma_masked_pairwise(
    s: Seq<Valley>,
    mask: Seq<bool>,
    upto: int,
    related: spec_fn(Valley, Valley) -> bool,
)
    requires
        0 <= upto <= s.len(),
        mask.len() == s.len(),
        forall|i: int, j: int|
            0 <= i < j < upto && mask[i] && mask[j] ==> #[trigger] related(s[i], s[j]),
    ensures
        forall|a: int, b: int|
            0 <= a < b < masked(s, mask, upto).len() ==> #[trigger] related(
                masked(s, mask, upto)[a],
                masked(s, mask, upto)[b],
            ),
    decreases upto,
{
    if upto > 0 {
        lemma_masked_pairwise(s, mask, upto - 1, related);
        lemma_masked_members(s, mask, upto - 1);
        let prev = masked(s, mask, upto - 1);
        let cur = masked(s, mask, upto);
        assert forall|a: int, b: int| 0 <= a < b < cur.len() implies #[trigger] related(
            cur[a],
            cur[b],
        ) by {
            if b < prev.len() {
                assert(related(prev[a], prev[b]));
            } else {
                assert(selects(s, mask, upto - 1, prev[a]));
                let k = choose|k: int| 0 <= k < upto - 1 && #[trigger] mask[k] && s[k] == prev[a];
                assert(related(s[k], s[upto - 1]));
            }
        }
    }
}

/// Keeps the valleys that `mask` selects.
fn apply_mask(valleys: &Vec<Valley>, mask: &Vec<bool>) -> (r: Vec<Valley>)
    requires
        mask.len() == valleys.len(),
    ensures
        r@ == masked(valleys@, mask@, valleys@.len() as int),
{
    let mut out: Vec<Valley> = Vec::new();
    let mut k: usize = 0;
    while k < valleys.len()
        invariant
            k <= valleys.len(),
            mask.len() == valleys.len(),
            out@ == masked(valleys@, mask@, k as int),
        decreases valleys.len() - k,
    {
        if mask[k] {
            out.push(valleys[k]);
        }
        k += 1;
    }
    out
}

/// Distance between the positions of two valleys.
pub open spec fn distance_us(a: Valley, b: Valley) -> int {
    if a.position_us >= b.position_us {
        a.position_us - b.position_us
    } else {
        b.position_us - a.position_us
    }
}

/// The two valleys lie less than `min_distance_us` apart.
pub open spec fn too_close(a: Valley, b: Valley, min_distance_us: int) -> bool {
    distance_us(a, b) < min_distance_us
}

/// No two valleys of `s` lie less than `min_distance_us` apart.
pub open spec fn kept_apart(s: Seq<Valley>, min_distance_us: int) -> bool {
    forall|a: int, b: int|
        0 <= a < b < s.len() ==> !too_close(#[trigger] s[a], #[trigger] s[b], min_distance_us)
}

/// The best-scoring valley of `s[..upto]` that is not yet done, the earliest
/// among equals; -1 where all are done.
pub open spec fn best_pending(s: Seq<Valley>, done: Seq<bool>, upto: int) -> int
    decreases upto,
{
    if upto <= 0 {
        -1
    } else {
        let prev = best_pending(s, done, upto - 1);
        if !done[upto - 1] && (prev < 0 || s[upto - 1].score > s[prev].score) {
            upto - 1
        } else {
            prev
        }
    }
}

/// Valley `b` lies too close to a valley that is already kept.
pub open spec fn conflicts(s: Seq<Valley>, kept: Seq<bool>, b: int, min_distance_us: int) -> bool {
    exists|j: int| 0 <= j < s.len() && #[trigger] kept[j] && too_close(s[j], s[b], min_distance_us)
}

/// The valleys done and the valleys kept after `rounds` rounds of the
/// greedy selection. Each round takes the best pending valley and keeps it
/// unless it lies too close to one kept before.
pub open spec fn selection_after(s: Seq<Valley>, min_distance_us: int, rounds: nat) -> (
    Seq<bool>,
    Seq<bool>,
)
    decreases rounds,
{
    if rounds == 0 {
        (Seq::new(s.len(), |i: int| false), Seq::new(s.len(), |i: int| false))
    } else {
        let before = selection_after(s, min_distance_us, (rounds - 1) as nat);
        let b = best_pending(s, before.0, s.len() as int);
        if b < 0 {
            before
        } else {
            (
                before.0.update(b, true),
                before.1.update(b, !conflicts(s, before.1, b, min_distance_us)),
            )
        }
    }
}

/// The valleys that survive the proximity filter: those that the greedy
/// selection keeps once every valley has had its round.
pub open spec fn proximity_mask(s: Seq<Valley>, min_distance_us: int) -> Seq<bool> {
    selection_after(s, min_distance_us, s.len()).1
}

/// Every round leaves one flag per valley.
pub proof fn lemma_selection_len(s: Seq<Valley>, min_distance_us: int, rounds: nat)
    ensures
        selection_after(s, min_distance_us, rounds).0.len() == s.len(),
        selection_after(s, min_distance_us, rounds).1.len() == s.len(),
    decreases rounds,
{
    if rounds > 0 {
        lemma_selection_len(s, min_distance_us, (rounds - 1) as nat);
        let before = selection_after(s, min_distance_us, (rounds - 1) as nat);
        lemma_best_pending_range(s, before.0, s.len() as int);
    }
}

proof fn lemma_best_pending_range(s: Seq<Valley>, done: Seq<bool>, upto: int)
    requires
        0 <= upto <= s.len(),
    ensures
        -1 <= best_pending(s, done, upto) < upto,
    decreases upto,
{
    if upto > 0 {
        lemma_best_pending_range(s, done, upto - 1);
    }
}

/// Masking keeps what holds of the valleys of `s`: growing positions, minimum
/// distances, and the range of the positions.
pub proof fn lemma_masked_keeps(
    s: Seq<Valley>,
    mask: Seq<bool>,
    min_distance_us: int,
    hop_us: int,
    first: int,
    upto: int,
)
    requires
        mask.len() == s.len(),
    ensures
        positions_increase(s) ==> positions_increase(masked(s, mask, s.len() as int)),
        kept_apart(s, min_distance_us) ==> kept_apart(
            masked(s, mask, s.len() as int),
            min_distance_us,
        ),
        positions_within(s, hop_us, first, upto) ==> positions_within(
            masked(s, mask, s.len() as int),
            hop_us,
            first,
            upto,
        ),
        positions_on_samples(s, hop_us) ==> positions_on_samples(
            masked(s, mask, s.len() as int),
            hop_us,
        ),
{
    let n = s.len() as int;
    let m = masked(s, mask, n);
    if positions_on_samples(s, hop_us) {
        lemma_masked_members(s, mask, n);
        assert forall|a: int| 0 <= a < m.len() implies (#[trigger] m[a]).position_us as int % hop_us
            == 0 by {
            assert(selects(s, mask, n, m[a]));
            let k = choose|k: int| 0 <= k < n && #[trigger] mask[k] && s[k] == m[a];
            assert(s[k].position_us as int % hop_us == 0);
        }
    }
    if positions_increase(s) {
        let rel = |a: Valley, b: Valley| a.position_us < b.position_us;
        assert forall|i: int, j: int| 0 <= i < j < n && mask[i] && mask[j] implies #[trigger] rel(
            s[i],
            s[j],
        ) by {}
        lemma_masked_pairwise(s, mask, n, rel);
        assert forall|a: int, b: int| 0 <= a < b < m.len() implies m[a].position_us
            < m[b].position_us by {
            assert(rel(m[a], m[b]));
        }
    }
    if kept_apart(s, min_distance_us) {
        let rel = |a: Valley, b: Valley| !too_close(a, b, min_distance_us);
        assert forall|i: int, j: int| 0 <= i < j < n && mask[i] && mask[j] implies #[trigger] rel(
            s[i],
            s[j],
        ) by {}
        lemma_masked_pairwise(s, mask, n, rel);
        assert forall|a: int, b: int| 0 <= a < b < m.len() implies !too_close(
            #[trigger] m[a],
            #[trigger] m[b],
            min_distance_us,
        ) by {
            assert(rel(m[a], m[b]));
        }
    }
    if positions_within(s, hop_us, first, upto) {
        lemma_masked_members(s, mask, n);
        assert forall|a: int| 0 <= a < m.len() implies first * hop_us <= (#[trigger] m[a]).position_us
            < upto * hop_us by {
            assert(selects(s, mask, n, m[a]));
            let k = choose|k: int| 0 <= k < n && #[trigger] mask[k] && s[k] == m[a];
            assert(first * hop_us <= s[k].position_us < upto * hop_us);
        }
    }
}

fn all_false(n: usize) -> (r: Vec<bool>)
    ensures
        r@ == Seq::new(n as nat, |i: int| false),
{
    let mut out: Vec<bool> = Vec::new();
    let mut k: usize = 0;
    while k < n
        invariant
            k <= n,
            out@.len() == k,
            forall|i: int| 0 <= i < k ==> !out@[i],
        decreases n - k,
    {
        out.push(false);
        k += 1;
    }
    assert(out@ =~= Seq::new(n as nat, |i: int| false));
    out
}

/// Proximity filter: goes through the valleys from the best score down, the
/// earlier first among equal scores, and drops each one that lies less than
/// `min_distance_us` from a valley kept before. The survivors stay in their
/// order.
pub fn filter_by_proximity(valleys: &Vec<Valley>, min_distance_us: u64) -> (r: Vec<Valley>)
    ensures
        r@ == masked(
            valleys@,
            proximity_mask(valleys@, min_distance_us as int),
            valleys@.len() as int,
        ),
        kept_apart(r@, min_distance_us as int),
{
    let n: usize = valleys.len();
    let mut done: Vec<bool> = all_false(n);
    let mut kept: Vec<bool> = all_false(n);
    let mut round: usize = 0;
    while round < n
        invariant
            n == valleys.len(),
            round <= n,
            done@.len() == n,
            kept@.len() == n,
            (done@, kept@) == selection_after(valleys@, min_distance_us as int, round as nat),
            forall|p: int, q: int|
                0 <= p < n && 0 <= q < n && p != q && #[trigger] kept@[p] && #[trigger] kept@[q]
                    ==> !too_close(valleys@[p], valleys@[q], min_distance_us as int),
        decreases n - round,
    {
        let mut found: bool = false;
        let mut best: usize = 0;
        let mut k: usize = 0;
        while k < n
            invariant
                n == valleys.len(),
                done@.len() == n,
                k <= n,
                found ==> best < k && best == best_pending(valleys@, done@, k as int),
                !found ==> best_pending(valleys@, done@, k as int) == -1,
            decreases n - k,
        {
            if !done[k] && (!found || valleys[k].score > valleys[best].score) {
                found = true;
                best = k;
            }
            k += 1;
        }
        if found {
            let mut conflict: bool = false;
            let mut j: usize = 0;
            while j < n
                invariant
                    n == valleys.len(),
                    kept@.len() == n,
                    best < n,
                    j <= n,
                    conflict == (exists|q: int|
                        0 <= q < j && #[trigger] kept@[q] && too_close(
                            valleys@[q],
                            valleys@[best as int],
                            min_distance_us as int,
                        )),
                decreases n - j,
            {
                let a: u64 = valleys[j].position_us;
                let b: u64 = valleys[best].position_us;
                let gap: u64 = if a >= b { a - b } else { b - a };
                if kept[j] && gap < min_distance_us {
                    conflict = true;
                }
                j += 1;
            }
            let ghost kept_before = kept@;
            assert(conflict == conflicts(
                valleys@,
                kept_before,
                best as int,
                min_distance_us as int,
            ));
            done.set(best, true);
            kept.set(best, !conflict);
            assert forall|p: int, q: int|
                0 <= p < n && 0 <= q < n && p != q && #[trigger] kept@[p] && #[trigger] kept@[q]
                implies !too_close(valleys@[p], valleys@[q], min_distance_us as int) by {
                if p == best {
                    assert(kept_before[q]);
                } else if q == best {
                    assert(kept_before[p]);
                } else {
                    assert(kept_before[p] && kept_before[q]);
                }
            }
        }
        round += 1;
    }
    let r = apply_mask(valleys, &kept);
    proof {
        let rel = |a: Valley, b: Valley| !too_close(a, b, min_distance_us as int);
        assert forall|i: int, j: int| 0 <= i < j < n && kept@[i] && kept@[j] implies #[trigger] rel(
            valleys@[i],
            valleys@[j],
        ) by {}
        lemma_masked_pairwise(valleys@, kept@, n as int, rel);
        assert forall|a: int, b: int| 0 <= a < b < r@.len() implies !too_close(
            #[trigger] r@[a],
            #[trigger] r@[b],
            min_distance_us as int,
        ) by {
            assert(rel(r@[a], r@[b]));
        }
    }
    r
}

/// The scores of `s`, in its order.
pub open spec fn scores_of(s: Seq<Valley>) -> Seq<i64> {
    s.map_values(|v: Valley| v.score)
}

/// Among the pairs of neighbours `(sorted[i], sorted[i + 1])` with `i` below
/// `upto` and a positive lower score, the index of the first pair with the
/// largest ratio of upper to lower score; -1 where there is no such pair.
pub open spec fn widest_gap(sorted: Seq<i64>, upto: int) -> int
    decreases upto,
{
    if upto <= 0 {
        -1
    } else {
        let prev = widest_gap(sorted, upto - 1);
        let i = upto - 1;
        if sorted[i] > 0 && (prev < 0 || sorted[i + 1] * sorted[prev] > sorted[prev + 1]
            * sorted[i]) {
            i
        } else {
            prev
        }
    }
}

/// The score at or below which valleys are discarded: the lower side of
/// the widest gap between neighbouring scores, where that gap is wider than
/// a factor of 1.5.
pub open spec fn gap_threshold(sorted: Seq<i64>) -> Option<i64> {
    let g = widest_gap(sorted, sorted.len() - 1);
    if g >= 0 && 2 * sorted[g + 1] > 3 * sorted[g] {
        Some(sorted[g])
    } else {
        None
    }
}

/// The valleys that survive the score-gap filter.
pub open spec fn score_gap_mask(s: Seq<Valley>) -> Seq<bool> {
    let threshold = gap_threshold(sorted_scores(scores_of(s)));
    Seq::new(
        s.len(),
        |i: int|
            match threshold {
                Some(t) => s[i].score > t,
                None => true,
            },
    )
}

proof fn lemma_product_fits(a: int, b: int)
    requires
        i64::MIN <= a <= i64::MAX,
        i64::MIN <= b <= i64::MAX,
    ensures
        -0x4000_0000_0000_0000_0000_0000_0000_0000 <= a * b
            <= 0x4000_0000_0000_0000_0000_0000_0000_0000,
{
    assert(-0x8000_0000_0000_0000 * 0x8000_0000_0000_0000 <= a * b <= 0x8000_0000_0000_0000
        * 0x8000_0000_0000_0000) by (nonlinear_arith)
        requires
            -0x8000_0000_0000_0000 <= a <= 0x8000_0000_0000_0000,
            -0x8000_0000_0000_0000 <= b <= 0x8000_0000_0000_0000,
    ;
}

/// Computes the threshold of the score-gap filter from scores in ascending
/// order.
pub fn find_gap_threshold(sorted: &Vec<i64>) -> (r: Option<i64>)
    ensures
        r == gap_threshold(sorted@),
{
    if sorted.len() < 2 {
        return None;
    }
    let pairs: usize = sorted.len() - 1;
    let mut found: bool = false;
    let mut best: usize = 0;
    let mut i: usize = 0;
    while i < pairs
        invariant
            pairs == sorted.len() - 1,
            i <= pairs,
            found ==> best < i && best == widest_gap(sorted@, i as int) && sorted@[best as int] > 0,
            !found ==> widest_gap(sorted@, i as int) == -1,
        decreases pairs - i,
    {
        if sorted[i] > 0 {
            if !found {
                found = true;
                best = i;
            } else {
                proof {
                    lemma_product_fits(sorted@[i + 1] as int, sorted@[best as int] as int);
                    lemma_product_fits(sorted@[best + 1] as int, sorted@[i as int] as int);
                }
                let lhs: i128 = sorted[i + 1] as i128 * sorted[best] as i128;
                let rhs: i128 = sorted[best + 1] as i128 * sorted[i] as i128;
                if lhs > rhs {
                    best = i;
                }
            }
        }
        i += 1;
    }
    if found && 2 * (sorted[best + 1] as i128) > 3 * (sorted[best] as i128) {
        Some(sorted[best])
    } else {
        None
    }
}

/// Score-gap filter: where the widest gap between neighbouring scores,
/// taken in ascending order, is wider than a factor of 1.5, drops every
/// valley that scores at or below the lower side of that gap.
pub fn filter_by_score_gap(valleys: &Vec<Valley>) -> (r: Vec<Valley>)
    ensures
        r@ == masked(valleys@, score_gap_mask(valleys@), valleys@.len() as int),
{
    let n: usize = valleys.len();
    let mut scores: Vec<i64> = Vec::new();
    let mut k: usize = 0;
    while k < n
        invariant
            n == valleys.len(),
            k <= n,
            scores@.len() == k,
            forall|i: int| 0 <= i < k ==> scores@[i] == valleys@[i].score,
        decreases n - k,
    {
        scores.push(valleys[k].score);
        k += 1;
    }
    assert(scores@ =~= scores_of(valleys@));
    let sorted = sort_scores(&scores);
    let threshold = find_gap_threshold(&sorted);
    let mut mask: Vec<bool> = Vec::new();
    let mut m: usize = 0;
    while m < n
        invariant
            n == valleys.len(),
            m <= n,
            mask@.len() == m,
            forall|i: int|
                0 <= i < m ==> mask@[i] == match threshold {
                    Some(t) => valleys@[i].score > t,
                    None => true,
                },
        decreases n - m,
    {
        let keep: bool = match threshold {
            Some(t) => valleys[m].score > t,
            None => true,
        };
        mask.push(keep);
        m += 1;
    }
    assert(mask@ =~= score_gap_mask(valleys@));
    apply_mask(valleys, &mask)
}

/// The valleys that survive the depth filter: those that reach at least
/// the depth margin below the noise floor.
pub open spec fn depth_mask(s: Seq<Valley>, noise_floor: int) -> Seq<bool> {
    Seq::new(s.len(), |i: int| s[i].depth <= noise_floor - DEPTH_MARGIN)
}

/// Depth filter: drops every valley whose depth is above the noise floor
/// less the depth margin.
pub fn filter_by_depth(valleys: &Vec<Valley>, noise_floor: i16) -> (r: Vec<Valley>)
    ensures
        r@ == masked(valleys@, depth_mask(valleys@, noise_floor as int), valleys@.len() as int),
{
    let n: usize = valleys.len();
    let limit: i32 = noise_floor as i32 - DEPTH_MARGIN;
    let mut mask: Vec<bool> = Vec::new();
    let mut m: usize = 0;
    while m < n
        invariant
            n == valleys.len(),
            m <= n,
            limit == noise_floor - DEPTH_MARGIN,
            mask@.len() == m,
            forall|i: int| 0 <= i < m ==> mask@[i] == (valleys@[i].depth <= limit),
        decreases n - m,
    {
        mask.push(valleys[m].depth as i32 <= limit);
        m += 1;
    }
    assert(mask@ =~= depth_mask(valleys@, noise_floor as int));
    apply_mask(valleys, &mask)
}

/// The boundaries of a recording: its candidates after the proximity
/// filter, the score-gap filter and the depth filter, in this order.
pub open spec fn boundaries_of(
    short: Seq<i16>,
    long: Seq<i16>,
    music_start_idx: int,
    music_end_idx: int,
    hop_us: int,
    min_prominence: int,
    min_song_duration_us: int,
    noise_floor: int,
) -> Seq<Valley> {
    let c = candidates_of(short, long, music_start_idx, music_end_idx, hop_us, min_prominence);
    let p = masked(c, proximity_mask(c, min_song_duration_us), c.len() as int);
    let g = masked(p, score_gap_mask(p), p.len() as int);
    masked(g, depth_mask(g, noise_floor), g.len() as int)
}

/// Finds the song boundaries inside the music region of a recording.
///
/// `short` is the curve smoothed over a few seconds, `long` the same curve
/// smoothed over half a minute. The result is in file order: positions grow
/// strictly, no two boundaries lie less than `min_song_duration_us` apart,
/// and each stands on a sample of the region.
pub fn find_song_boundaries(
    short: &Vec<i16>,
    long: &Vec<i16>,
    music_start_idx: usize,
    music_end_idx: usize,
    min_prominence: i16,
    min_song_duration_us: u64,
    hop_us: u64,
    noise_floor: i16,
) -> (r: Vec<Valley>)
    requires
        hop_us > 0,
        short.len() == long.len(),
        short.len() * hop_us <= MAX_CURVE_US,
    ensures
        r@ == boundaries_of(
            short@,
            long@,
            music_start_idx as int,
            music_end_idx as int,
            hop_us as int,
            min_prominence as int,
            min_song_duration_us as int,
            noise_floor as int,
        ),
        positions_increase(r@),
        kept_apart(r@, min_song_duration_us as int),
        positions_within(
            r@,
            hop_us as int,
            search_first(music_start_idx as int, hop_us as int),
            search_end(short@.len() as int, music_end_idx as int, hop_us as int),
        ),
        positions_on_samples(r@, hop_us as int),
{
    let c = find_candidates(short, long, music_start_idx, music_end_idx, hop_us, min_prominence);
    let p = filter_by_proximity(&c, min_song_duration_us);
    let g = filter_by_score_gap(&p);
    let d = filter_by_depth(&g, noise_floor);
    proof {
        let md = min_song_duration_us as int;
        let first = search_first(music_start_idx as int, hop_us as int);
        let upto = search_end(short@.len() as int, music_end_idx as int, hop_us as int);
        lemma_selection_len(c@, md, c@.len());
        lemma_masked_keeps(c@, proximity_mask(c@, md), md, hop_us as int, first, upto);
        lemma_masked_keeps(p@, score_gap_mask(p@), md, hop_us as int, first, upto);
        lemma_masked_keeps(g@, depth_mask(g@, noise_floor as int), md, hop_us as int, first, upto);
    }
    d
}

/// Time, in microseconds, for which the level has to stay up at groove-in.
pub const GROOVE_IN_SUSTAIN_US: u64 = 2_000_000;

/// Length, in microseconds, of the window in which music is looked for at
/// groove-out.
pub const GROOVE_OUT_WINDOW_US: u64 = 5_000_000;

/// Time, in microseconds, for which the level has to stay down at
/// groove-out.
pub const GROOVE_OUT_HOLD_US: u64 = 10_000_000;

/// Twice the threshold between groove noise and music: the midpoint of
/// noise floor and music level, doubled so that it stays an integer.
pub open spec fn twice_threshold(noise_floor: int, music_level: int) -> int {
    noise_floor + music_level
}

/// Sample `j` lies above the threshold.
pub open spec fn is_above(s: Seq<i16>, threshold2: int, j: int) -> bool {
    2 * s[j] > threshold2
}

/// Sample `j` lies below the threshold.
pub open spec fn is_below(s: Seq<i16>, threshold2: int, j: int) -> bool {
    2 * s[j] < threshold2
}

/// All of `s[from..to]` lies above the threshold.
pub open spec fn all_above(s: Seq<i16>, threshold2: int, from: int, to: int) -> bool {
    forall|j: int| from <= j < to ==> #[trigger] is_above(s, threshold2, j)
}

/// All of `s[from..to]` lies below the threshold.
pub open spec fn all_below(s: Seq<i16>, threshold2: int, from: int, to: int) -> bool {
    forall|j: int| from <= j < to ==> #[trigger] is_below(s, threshold2, j)
}

/// Number of samples of `s[from..to]` above the threshold.
pub open spec fn count_above(s: Seq<i16>, threshold2: int, from: int, to: int) -> int
    decreases to - from,
{
    if to <= from {
        0
    } else {
        count_above(s, threshold2, from, to - 1) + if is_above(s, threshold2, to - 1) {
            1int
        } else {
            0int
        }
    }
}

/// Number of samples for which the level has to stay up at groove-in: at
/// least one.
pub open spec fn groove_in_sustain(hop_us: int) -> int {
    if hops_in(GROOVE_IN_SUSTAIN_US as int, hop_us) >= 1 {
        hops_in(GROOVE_IN_SUSTAIN_US as int, hop_us)
    } else {
        1
    }
}

/// First sample at or after `from`, with `sustain` samples after it inside
/// the curve, from which the level stays above the threshold for `sustain`
/// samples; -1 where there is none.
pub open spec fn first_sustained(s: Seq<i16>, threshold2: int, sustain: int, from: int) -> int
    decreases s.len() - from,
{
    if from < 0 || from + sustain >= s.len() {
        -1
    } else if all_above(s, threshold2, from, from + sustain) {
        from
    } else {
        first_sustained(s, threshold2, sustain, from + 1)
    }
}

/// Where the rise that reaches sample `w` began: the first sample of the
/// strictly rising stretch that ends at `w`.
pub open spec fn rise_start(s: Seq<i16>, w: int) -> int
    decreases w,
{
    if w > 0 && s[w - 1] < s[w] {
        rise_start(s, w - 1)
    } else {
        w
    }
}

/// The sample at which the music starts: where the rise began that leads
/// to the first sustained stretch above the threshold; 0 where the level
/// never stays up.
pub open spec fn groove_in_index(s: Seq<i16>, threshold2: int, hop_us: int) -> int {
    let hit = first_sustained(s, threshold2, groove_in_sustain(hop_us), 0);
    if hit < 0 {
        0
    } else {
        rise_start(s, hit)
    }
}

fn stays_above(s: &Vec<i16>, threshold2: i32, from: usize, to: usize) -> (r: bool)
    requires
        from <= to <= s.len(),
    ensures
        r == all_above(s@, threshold2 as int, from as int, to as int),
{
    let mut j: usize = from;
    while j < to
        invariant
            from <= j <= to <= s.len(),
            all_above(s@, threshold2 as int, from as int, j as int),
        decreases to - j,
    {
        if 2 * (s[j] as i32) <= threshold2 {
            assert(!is_above(s@, threshold2 as int, j as int));
            return false;
        }
        j += 1;
    }
    true
}

fn stays_below(s: &Vec<i16>, threshold2: i32, from: usize, to: usize) -> (r: bool)
    requires
        from <= to <= s.len(),
    ensures
        r == all_below(s@, threshold2 as int, from as int, to as int),
{
    let mut j: usize = from;
    while j < to
        invariant
            from <= j <= to <= s.len(),
            all_below(s@, threshold2 as int, from as int, j as int),
        decreases to - j,
    {
        if 2 * (s[j] as i32) >= threshold2 {
            assert(!is_below(s@, threshold2 as int, j as int));
            return false;
        }
        j += 1;
    }
    true
}

/// Detects the groove-in: the position, in microseconds, at which the
/// music starts. The threshold is the midpoint of noise floor and music
/// level. Returns 0, the start of the file, where the level never stays
/// above it for the sustain time.
#[verifier::loop_isolation(false)]
pub fn detect_groove_in(smoothed: &Vec<i16>, noise_floor: i16, music_level: i16, hop_us: u64) -> (r:
    u64)
    requires
        hop_us > 0,
        smoothed.len() * hop_us <= MAX_CURVE_US,
    ensures
        r == groove_in_index(
            smoothed@,
            twice_threshold(noise_floor as int, music_level as int),
            hop_us as int,
        ) * hop_us,
        r <= smoothed.len() * hop_us,
{
    let len: usize = smoothed.len();
    let threshold2: i32 = noise_floor as i32 + music_level as i32;
    let hops: u64 = GROOVE_IN_SUSTAIN_US / hop_us;
    let sustain: u64 = if hops >= 1 { hops } else { 1 };
    proof {
        lemma_curve_bounds(len as int, hop_us as int, 0);
    }
    if len as u64 <= sustain {
        return 0;
    }
    let limit: usize = (len as u64 - sustain) as usize;
    let span: usize = sustain as usize;
    let mut i: usize = 0;
    while i < limit
        invariant
            hop_us > 0,
            smoothed.len() * hop_us <= MAX_CURVE_US,
            len == smoothed.len(),
            limit + span == len,
            span == groove_in_sustain(hop_us as int),
            i <= limit,
            first_sustained(smoothed@, threshold2 as int, span as int, 0) == first_sustained(
                smoothed@,
                threshold2 as int,
                span as int,
                i as int,
            ),
        decreases limit - i,
    {
        if stays_above(smoothed, threshold2, i, i + span) {
            let mut start: usize = i;
            while start > 0 && smoothed[start - 1] < smoothed[start]
                invariant
                    start <= i < smoothed.len(),
                    rise_start(smoothed@, i as int) == rise_start(smoothed@, start as int),
                decreases start,
            {
                start -= 1;
            }
            proof {
                lemma_curve_bounds(len as int, hop_us as int, start as int);
            }
            return start as u64 * hop_us;
        }
        i += 1;
    }
    0
}

/// Last sample below `upto`, with a full window before it, whose window
/// `i - window ..= i` has more than half a window of samples above the
/// threshold; -1 where there is none.
pub open spec fn last_music(s: Seq<i16>, threshold2: int, window: int, upto: int) -> int
    decreases upto,
{
    if upto <= window || upto <= 0 {
        -1
    } else if count_above(s, threshold2, upto - 1 - window, upto) > window / 2 {
        upto - 1
    } else {
        last_music(s, threshold2, window, upto - 1)
    }
}

/// End of the stretch checked from sample `j`: `hold` samples on, cut to
/// the curve.
pub open spec fn hold_end(s: Seq<i16>, hold: int, j: int) -> int {
    if j + hold <= s.len() {
        j + hold
    } else {
        s.len() as int
    }
}

/// First sample at or after `from` at which the level drops below the
/// threshold and stays there for `hold` samples, or to the end of the
/// curve; -1 where there is none.
pub open spec fn first_drop(s: Seq<i16>, threshold2: int, hold: int, from: int) -> int
    decreases s.len() - from,
{
    if from < 0 || from >= s.len() {
        -1
    } else if is_below(s, threshold2, from) && all_below(
        s,
        threshold2,
        from,
        hold_end(s, hold, from),
    ) {
        from
    } else {
        first_drop(s, threshold2, hold, from + 1)
    }
}

/// The sample at which the music ends: the first lasting drop after the
/// last window that holds music; -1 where either is missing.
pub open spec fn groove_out_index(s: Seq<i16>, threshold2: int, hop_us: int) -> int {
    let m = last_music(
        s,
        threshold2,
        hops_in(GROOVE_OUT_WINDOW_US as int, hop_us),
        s.len() as int,
    );
    if m < 0 {
        -1
    } else {
        first_drop(s, threshold2, hops_in(GROOVE_OUT_HOLD_US as int, hop_us), m)
    }
}

fn samples_above(s: &Vec<i16>, threshold2: i32, from: usize, to: usize) -> (r: usize)
    requires
        from <= to <= s.len(),
    ensures
        r == count_above(s@, threshold2 as int, from as int, to as int),
        r <= to - from,
{
    let mut count: usize = 0;
    let mut j: usize = from;
    while j < to
        invariant
            from <= j <= to <= s.len(),
            count == count_above(s@, threshold2 as int, from as int, j as int),
            count <= j - from,
        decreases to - j,
    {
        if 2 * (s[j] as i32) > threshold2 {
            count += 1;
        }
        j += 1;
    }
    count
}

/// Detects the groove-out: the position, in microseconds, at which the
/// music ends. Returns `file_duration_us` where no window holds music or
/// no lasting drop follows the last one that does.
#[verifier::loop_isolation(false)]
pub fn detect_groove_out(
    smoothed: &Vec<i16>,
    noise_floor: i16,
    music_level: i16,
    file_duration_us: u64,
    hop_us: u64,
) -> (r: u64)
    requires
        hop_us > 0,
        smoothed.len() * hop_us <= MAX_CURVE_US,
    ensures
        r == ({
            let at = groove_out_index(
                smoothed@,
                twice_threshold(noise_floor as int, music_level as int),
                hop_us as int,
            );
            if at < 0 {
                file_duration_us as int
            } else {
                at * hop_us
            }
        }),
{
    let len: usize = smoothed.len();
    let threshold2: i32 = noise_floor as i32 + music_level as i32;
    let window: u64 = GROOVE_OUT_WINDOW_US / hop_us;
    let hold: u64 = GROOVE_OUT_HOLD_US / hop_us;
    proof {
        lemma_curve_bounds(len as int, hop_us as int, 0);
    }
    if len as u64 <= window {
        return file_duration_us;
    }
    let span: usize = window as usize;
    let mut upto: usize = len;
    let mut music: usize = 0;
    let mut found: bool = false;
    while upto > span && !found
        invariant
            len == smoothed.len(),
            span == window < len,
            upto <= len,
            !found ==> last_music(smoothed@, threshold2 as int, span as int, len as int)
                == last_music(smoothed@, threshold2 as int, span as int, upto as int),
            found ==> music < len && music == last_music(
                smoothed@,
                threshold2 as int,
                span as int,
                len as int,
            ),
        decreases upto + if found { 0int } else { 1int },
    {
        let above = samples_above(smoothed, threshold2, upto - 1 - span, upto);
        if above > span / 2 {
            music = upto - 1;
            found = true;
        } else {
            upto -= 1;
        }
    }
    if !found {
        return file_duration_us;
    }
    let mut j: usize = music;
    while j < len
        invariant
            hop_us > 0,
            smoothed.len() * hop_us <= MAX_CURVE_US,
            len == smoothed.len(),
            len <= MAX_CURVE_US,
            hold == hops_in(GROOVE_OUT_HOLD_US as int, hop_us as int),
            hold <= GROOVE_OUT_HOLD_US,
            music <= j <= len,
            first_drop(smoothed@, threshold2 as int, hold as int, music as int) == first_drop(
                smoothed@,
                threshold2 as int,
                hold as int,
                j as int,
            ),
        decreases len - j,
    {
        if 2 * (smoothed[j] as i32) < threshold2 {
            let check_end: usize = if j as u64 + hold <= len as u64 {
                (j as u64 + hold) as usize
            } else {
                len
            };
            if stays_below(smoothed, threshold2, j, check_end) {
                proof {
                    lemma_curve_bounds(len as int, hop_us as int, j as int);
                }
                return j as u64 * hop_us;
            }
        }
        j += 1;
    }
    file_duration_us
}

/// Number of the first sample that stands at or after `position_us`.
pub open spec fn sample_at_or_after(position_us: int, hop_us: int) -> int {
    (position_us + hop_us - 1) / hop_us
}

/// First sample that stands at or after `position_us`, if the curve of
/// `len` samples has one.
pub fn first_index_at_or_after(position_us: u64, hop_us: u64, len: usize) -> (r: Option<usize>)
    requires
        hop_us > 0,
    ensures
        r == if sample_at_or_after(position_us as int, hop_us as int) < len {
            Some(sample_at_or_after(position_us as int, hop_us as int) as usize)
        } else {
            None
        },
        match r {
            Some(i) => i < len && i * hop_us >= position_us && (i > 0 ==> (i - 1) * hop_us
                < position_us),
            None => len == 0 || (len - 1) * hop_us < position_us,
        },
{
    let whole: u64 = position_us / hop_us;
    let rest: u64 = position_us % hop_us;
    assert(position_us == whole * hop_us + rest) by {
        vstd::arithmetic::div_mod::lemma_fundamental_div_mod(position_us as int, hop_us as int);
        assert(hop_us * whole == whole * hop_us) by (nonlinear_arith);
    }
    proof {
        let up = position_us + hop_us - 1;
        if rest == 0 {
            vstd::arithmetic::div_mod::lemma_fundamental_div_mod_converse(
                up,
                hop_us as int,
                whole as int,
                hop_us - 1,
            );
        } else {
            assert((whole + 1) * hop_us == whole * hop_us + hop_us) by (nonlinear_arith);
            vstd::arithmetic::div_mod::lemma_fundamental_div_mod_converse(
                up,
                hop_us as int,
                whole + 1,
                rest - 1,
            );
        }
    }
    if rest == 0 {
        if whole < len as u64 {
            assert(whole > 0 ==> (whole - 1) * hop_us < position_us) by (nonlinear_arith)
                requires
                    position_us == whole * hop_us,
                    hop_us > 0,
            ;
            Some(whole as usize)
        } else {
            assert(len > 0 ==> (len - 1) * hop_us < whole * hop_us) by (nonlinear_arith)
                requires
                    len <= whole,
                    hop_us > 0,
            ;
            None
        }
    } else {
        if whole < u64::MAX && whole + 1 < len as u64 {
            assert((whole + 1) * hop_us >= position_us) by (nonlinear_arith)
                requires
                    position_us == whole * hop_us + rest,
                    rest < hop_us,
            ;
            Some((whole + 1) as usize)
        } else {
            assert(len > 0 ==> (len - 1) * hop_us <= whole * hop_us) by (nonlinear_arith)
                requires
                    len <= whole + 1,
                    hop_us > 0,
            ;
            None
        }
    }
}

/// Factor between the prominence of a guided boundary and its score.
pub const GUIDED_SCORE_SCALE: i64 = 10_000_000;

/// Largest mismatch, in percent of the music duration, between the expected
/// and the measured duration at which guided detection is used.
pub const GUIDED_MAX_MISMATCH_PERCENT: u64 = 3;

/// Half-width, in microseconds, of the window searched around an expected
/// boundary.
pub const GUIDED_SEARCH_WINDOW_US: u64 = 10_000_000;

/// Whether a release is close enough to the recording for guided
/// detection: at least two tracks, and an expected total within three percent
/// of the measured music duration.
pub open spec fn guided_applies(expected_total_us: int, music_duration_us: int, tracks: int) -> bool {
    let mismatch = if expected_total_us >= music_duration_us {
        expected_total_us - music_duration_us
    } else {
        music_duration_us - expected_total_us
    };
    tracks >= 2 && music_duration_us > 0 && mismatch * 100 <= GUIDED_MAX_MISMATCH_PERCENT
        * music_duration_us
}

/// Decides between guided and autonomous detection.
pub fn use_guided_detection(expected_total_us: u64, music_duration_us: u64, tracks: usize) -> (r:
    bool)
    ensures
        r == guided_applies(expected_total_us as int, music_duration_us as int, tracks as int),
{
    let mismatch: u64 = if expected_total_us >= music_duration_us {
        expected_total_us - music_duration_us
    } else {
        music_duration_us - expected_total_us
    };
    let percent: u128 = GUIDED_MAX_MISMATCH_PERCENT as u128;
    assert(percent == 3);
    tracks >= 2 && music_duration_us > 0 && mismatch as u128 * 100 <= percent
        * music_duration_us as u128
}

/// The first lowest sample of `s[..upto]` that stands between `lo` and
/// `hi`, both included; -1 where no sample stands there.
pub open spec fn window_minimum(s: Seq<i16>, hop_us: int, lo: int, hi: int, upto: int) -> int
    decreases upto,
{
    if upto <= 0 {
        -1
    } else {
        let prev = window_minimum(s, hop_us, lo, hi, upto - 1);
        let j = upto - 1;
        if lo <= j * hop_us <= hi && (prev < 0 || s[j] < s[prev]) {
            j
        } else {
            prev
        }
    }
}

/// The boundary reported at sample `j`: its depth, the mean levels of the
/// context on either side, and its prominence against the higher of them.
pub open spec fn guided_valley(s: Seq<i16>, hop_us: int, j: int) -> Valley {
    let context = hops_in(CONTEXT_US as int, hop_us);
    let depth = s[j] as int;
    let left = context_level(s, if j >= context { j - context } else { 0 }, j, depth);
    let right = context_level(
        s,
        j + 1,
        if j + context <= s.len() { j + context } else { s.len() as int },
        depth,
    );
    let higher = if left >= right { left } else { right };
    let prominence = if higher > depth { higher - depth } else { 0 };
    Valley {
        position_us: (j * hop_us) as u64,
        depth: s[j],
        prominence: prominence as i32,
        left_level: left as i16,
        right_level: right as i16,
        width_us: 0,
        score: (prominence * GUIDED_SCORE_SCALE) as i64,
    }
}

/// The sample chosen for the boundary before track `i`: the first lowest
/// one within `window_us` of the expected start; -1 where the window holds
/// no sample.
pub open spec fn guided_index(
    s: Seq<i16>,
    tracks: Seq<ExpectedTrack>,
    music_start_us: int,
    window_us: int,
    hop_us: int,
    i: int,
) -> int {
    let expected = music_start_us + tracks[i].expected_start_us;
    window_minimum(s, hop_us, expected - window_us, expected + window_us, s.len() as int)
}

/// The boundary reported where the window of an expected start holds no
/// sample of the curve: it stands at the expected position, at the level
/// of silence, with no prominence.
pub open spec fn expected_valley(expected_us: int) -> Valley {
    Valley {
        position_us: if expected_us <= u64::MAX {
            expected_us as u64
        } else {
            u64::MAX
        },
        depth: SILENCE_LEVEL,
        prominence: 0,
        left_level: SILENCE_LEVEL,
        right_level: SILENCE_LEVEL,
        width_us: 0,
        score: 0,
    }
}

/// The boundary before track `i`: at the first lowest sample within
/// `window_us` of the expected start, or at the expected start itself
/// where the window holds no sample.
pub open spec fn guided_boundary(
    s: Seq<i16>,
    tracks: Seq<ExpectedTrack>,
    music_start_us: int,
    window_us: int,
    hop_us: int,
    i: int,
) -> Valley {
    let j = guided_index(s, tracks, music_start_us, window_us, hop_us, i);
    if j < 0 {
        expected_valley(music_start_us + tracks[i].expected_start_us)
    } else {
        guided_valley(s, hop_us, j)
    }
}

/// The boundaries before the tracks `1..upto`, in their order: one for
/// each.
pub open spec fn guided_in(
    s: Seq<i16>,
    tracks: Seq<ExpectedTrack>,
    music_start_us: int,
    window_us: int,
    hop_us: int,
    upto: int,
) -> Seq<Valley>
    decreases upto,
{
    if upto <= 1 {
        Seq::empty()
    } else {
        guided_in(s, tracks, music_start_us, window_us, hop_us, upto - 1).push(
            guided_boundary(s, tracks, music_start_us, window_us, hop_us, upto - 1),
        )
    }
}

/// Guided detection: for the expected start of every track but the first,
/// taken from the start of the music, reports the first lowest sample
/// within `search_window_us` of it. Where the window holds no sample of
/// the curve, the boundary stands at the expected start itself. There is
/// always one boundary less than there are tracks.
#[verifier::loop_isolation(false)]
pub fn find_guided_boundaries(
    smoothed: &Vec<i16>,
    expected_tracks: &Vec<ExpectedTrack>,
    music_start_us: u64,
    search_window_us: u64,
    hop_us: u64,
) -> (r: Vec<Valley>)
    requires
        hop_us > 0,
        smoothed.len() * hop_us <= MAX_CURVE_US,
    ensures
        r@ == guided_in(
            smoothed@,
            expected_tracks@,
            music_start_us as int,
            search_window_us as int,
            hop_us as int,
            expected_tracks@.len() as int,
        ),
        r@.len() == if expected_tracks@.len() >= 1 {
            expected_tracks@.len() - 1
        } else {
            0
        },
        forall|i: int|
            1 <= i < expected_tracks@.len() ==> #[trigger] r@[i - 1] == guided_boundary(
                smoothed@,
                expected_tracks@,
                music_start_us as int,
                search_window_us as int,
                hop_us as int,
                i,
            ),
{
    let mut out: Vec<Valley> = Vec::new();
    let len: usize = smoothed.len();
    let context: u64 = CONTEXT_US / hop_us;
    proof {
        lemma_curve_bounds(len as int, hop_us as int, 0);
    }
    let mut i: usize = 1;
    while i < expected_tracks.len()
        invariant
            1 <= i,
            expected_tracks.len() >= 1 ==> i <= expected_tracks.len(),
            expected_tracks.len() == 0 ==> i == 1,
            out@ == guided_in(
                smoothed@,
                expected_tracks@,
                music_start_us as int,
                search_window_us as int,
                hop_us as int,
                i as int,
            ),
            out@.len() == i - 1,
            forall|k: int|
                1 <= k < i ==> #[trigger] out@[k - 1] == guided_boundary(
                    smoothed@,
                    expected_tracks@,
                    music_start_us as int,
                    search_window_us as int,
                    hop_us as int,
                    k,
                ),
        decreases expected_tracks.len() - i,
    {
        let expected: u128 = music_start_us as u128 + expected_tracks[i].expected_start_us as u128;
        let lo: u128 = if expected >= search_window_us as u128 {
            expected - search_window_us as u128
        } else {
            0
        };
        let hi: u128 = expected + search_window_us as u128;
        let mut found: bool = false;
        let mut best: usize = 0;
        let mut j: usize = 0;
        while j < len
            invariant
                j <= len,
                found ==> best < j && best == window_minimum(
                    smoothed@,
                    hop_us as int,
                    expected - search_window_us,
                    expected + search_window_us,
                    j as int,
                ),
                !found ==> window_minimum(
                    smoothed@,
                    hop_us as int,
                    expected - search_window_us,
                    expected + search_window_us,
                    j as int,
                ) == -1,
            decreases len - j,
        {
            proof {
                lemma_curve_bounds(len as int, hop_us as int, j as int);
            }
            let at: u128 = (j as u64 * hop_us) as u128;
            if lo <= at && at <= hi && (!found || smoothed[j] < smoothed[best]) {
                found = true;
                best = j;
            }
            j += 1;
        }
        assert(guided_index(
            smoothed@,
            expected_tracks@,
            music_start_us as int,
            search_window_us as int,
            hop_us as int,
            i as int,
        ) == if found { best as int } else { -1 });
        let ghost before = out@;
        if found {
            proof {
                lemma_curve_bounds(len as int, hop_us as int, best as int);
            }
            let depth: i16 = smoothed[best];
            let left_from: u64 = if best as u64 >= context { best as u64 - context } else { 0 };
            let left: i16 = context_mean(smoothed, left_from, best as u64, depth);
            let right_to: u64 = if best as u64 + context <= len as u64 {
                best as u64 + context
            } else {
                len as u64
            };
            let right: i16 = context_mean(smoothed, best as u64 + 1, right_to, depth);
            let higher: i16 = if left >= right { left } else { right };
            let prominence: i32 = if higher > depth { higher as i32 - depth as i32 } else { 0 };
            out.push(
                Valley {
                    position_us: best as u64 * hop_us,
                    depth,
                    prominence,
                    left_level: left,
                    right_level: right,
                    width_us: 0,
                    score: prominence as i64 * GUIDED_SCORE_SCALE,
                },
            );
        } else {
            let position: u64 = if expected <= u64::MAX as u128 {
                expected as u64
            } else {
                u64::MAX
            };
            out.push(
                Valley {
                    position_us: position,
                    depth: SILENCE_LEVEL,
                    prominence: 0,
                    left_level: SILENCE_LEVEL,
                    right_level: SILENCE_LEVEL,
                    width_us: 0,
                    score: 0,
                },
            );
        }
        assert(out@ == before.push(
            guided_boundary(
                smoothed@,
                expected_tracks@,
                music_start_us as int,
                search_window_us as int,
                hop_us as int,
                i as int,
            ),
        ));
        i += 1;
    }
    proof {
        if expected_tracks.len() == 0 {
            assert(i == 1);
        } else {
            assert(i == expected_tracks.len());
        }
    }
    out
}

/// What the analysis of one recording found.
#[derive(Clone, Debug)]
pub struct Analysis {
    /// Level of the groove noise.
    pub noise_floor: i16,
    /// Typical level of the music.
    pub music_level: i16,
    /// Where the music starts.
    pub groove_in_us: u64,
    /// Where the music ends.
    pub groove_out_us: u64,
    /// First sample of the music region.
    pub music_start_idx: usize,
    /// End, exclusive, of the music region.
    pub music_end_idx: usize,
    /// The song boundaries, in file order.
    pub valleys: Vec<Valley>,
}

/// Lead-in, music and lead-out of a recording: the three stretches into
/// which groove-in and groove-out divide it.
pub fn region_durations(groove_in_us: u64, groove_out_us: u64, file_duration_us: u64) -> (r: (
    u64,
    u64,
    u64,
))
    requires
        groove_in_us <= groove_out_us <= file_duration_us,
    ensures
        r.0 == groove_in_us,
        r.1 == groove_out_us - groove_in_us,
        r.2 == file_duration_us - groove_out_us,
        r.0 + r.1 + r.2 == file_duration_us,
{
    (groove_in_us, groove_out_us - groove_in_us, file_duration_us - groove_out_us)
}

/// Analyses the level curve of one recording: estimates noise floor and
/// music level from the short-smoothed curve, finds groove-in and
/// groove-out, and looks for the song boundaries between them.
///
/// Every boundary lies between groove-in and groove-out: before the
/// groove-out and, with a hop of at most the search radius, after the
/// groove-in.
pub fn analyze_recording(
    short: &Vec<i16>,
    long: &Vec<i16>,
    file_duration_us: u64,
    hop_us: u64,
    min_prominence: i16,
    min_song_duration_us: u64,
) -> (r: Analysis)
    requires
        hop_us > 0,
        short.len() > 0,
        short.len() == long.len(),
        short.len() * hop_us <= MAX_CURVE_US,
    ensures
        r.noise_floor == noise_floor_of(short@),
        r.music_level == music_level_of(short@),
        r.groove_in_us == groove_in_index(
            short@,
            twice_threshold(r.noise_floor as int, r.music_level as int),
            hop_us as int,
        ) * hop_us,
        r.groove_out_us == ({
            let at = groove_out_index(
                short@,
                twice_threshold(r.noise_floor as int, r.music_level as int),
                hop_us as int,
            );
            if at < 0 {
                file_duration_us as int
            } else {
                at * hop_us
            }
        }),
        r.music_start_idx == if sample_at_or_after(r.groove_in_us as int, hop_us as int)
            < short@.len() {
            sample_at_or_after(r.groove_in_us as int, hop_us as int)
        } else {
            0
        },
        r.music_end_idx == if sample_at_or_after(r.groove_out_us as int, hop_us as int)
            < short@.len() {
            sample_at_or_after(r.groove_out_us as int, hop_us as int)
        } else {
            short@.len() as int
        },
        r.valleys@ == boundaries_of(
            short@,
            long@,
            r.music_start_idx as int,
            r.music_end_idx as int,
            hop_us as int,
            min_prominence as int,
            min_song_duration_us as int,
            r.noise_floor as int,
        ),
        positions_increase(r.valleys@),
        kept_apart(r.valleys@, min_song_duration_us as int),
        forall|a: int|
            0 <= a < r.valleys@.len() ==> r.groove_in_us <= (#[trigger] r.valleys@[a]).position_us
                < r.groove_out_us,
        hop_us <= SEARCH_RADIUS_US ==> forall|a: int|
            0 <= a < r.valleys@.len() ==> r.groove_in_us < (#[trigger] r.valleys@[a]).position_us,
{
    let noise_floor = estimate_noise_floor(short);
    let music_level = estimate_music_level(short);
    let groove_in_us = detect_groove_in(short, noise_floor, music_level, hop_us);
    let groove_out_us = detect_groove_out(short, noise_floor, music_level, file_duration_us, hop_us);
    let start_found = first_index_at_or_after(groove_in_us, hop_us, short.len());
    let end_found = first_index_at_or_after(groove_out_us, hop_us, short.len());
    let music_start_idx: usize = match start_found {
        Some(i) => i,
        None => 0,
    };
    let music_end_idx: usize = match end_found {
        Some(i) => i,
        None => short.len(),
    };
    let valleys = find_song_boundaries(
        short,
        long,
        music_start_idx,
        music_end_idx,
        min_prominence,
        min_song_duration_us,
        hop_us,
        noise_floor,
    );
    proof {
        let n = short@.len() as int;
        let upto = region_end(n, music_end_idx as int);
        let radius = hops_in(SEARCH_RADIUS_US as int, hop_us as int);
        assert(radius >= 0) by (nonlinear_arith)
            requires
                radius == SEARCH_RADIUS_US as int / hop_us as int,
                hop_us > 0,
        ;
        assert(hop_us <= SEARCH_RADIUS_US ==> radius >= 1) by (nonlinear_arith)
            requires
                radius == SEARCH_RADIUS_US as int / hop_us as int,
                hop_us > 0,
        ;
        assert forall|a: int| 0 <= a < valleys@.len() implies groove_in_us <= (
        #[trigger] valleys@[a]).position_us < groove_out_us && (hop_us <= SEARCH_RADIUS_US
            ==> groove_in_us < valleys@[a].position_us) by {
            let p = valleys@[a].position_us as int;
            assert((music_start_idx + radius) * hop_us <= p < (upto - radius) * hop_us);
            assert(music_start_idx * hop_us + radius * hop_us == (music_start_idx + radius)
                * hop_us) by (nonlinear_arith);
            assert((upto - radius) * hop_us + radius * hop_us == upto * hop_us)
                by (nonlinear_arith);
            assert(radius * hop_us >= 0 && (radius >= 1 ==> radius * hop_us >= hop_us))
                by (nonlinear_arith)
                requires
                    radius >= 0,
                    hop_us > 0,
            ;
            assert(music_start_idx * hop_us <= p < upto * hop_us);
            // Not before the groove-in.
            if start_found is Some {
                assert(music_start_idx * hop_us >= groove_in_us);
            } else {
                // The groove-in stands on a sample, or is 0.
                let g = groove_in_index(
                    short@,
                    twice_threshold(noise_floor as int, music_level as int),
                    hop_us as int,
                );
                lemma_groove_in_on_curve(
                    short@,
                    twice_threshold(noise_floor as int, music_level as int),
                    hop_us as int,
                );
                assert(g * hop_us <= (n - 1) * hop_us) by (nonlinear_arith)
                    requires
                        0 <= g <= n - 1,
                        hop_us > 0,
                ;
            }
            // Before the groove-out.
            lemma_position_below(p, upto, hop_us as int);
            match end_found {
                Some(i) => {
                    assert(upto == i);
                    assert(p <= (i - 1) * hop_us);
                },
                None => {
                    assert(upto == n);
                    assert(p <= (n - 1) * hop_us);
                },
            }
        }
    }
    Analysis {
        noise_floor,
        music_level,
        groove_in_us,
        groove_out_us,
        music_start_idx,
        music_end_idx,
        valleys,
    }
}

/// A position on the curve below sample `upto` is at most that of the
/// sample before it.
proof fn lemma_position_below(p: int, upto: int, hop_us: int)
    requires
        hop_us > 0,
        0 <= p < upto * hop_us,
        p % hop_us == 0,
    ensures
        p <= (upto - 1) * hop_us,
{
    let k = p / hop_us;
    vstd::arithmetic::div_mod::lemma_fundamental_div_mod(p, hop_us);
    assert(hop_us * k == k * hop_us) by (nonlinear_arith);
    assert(k < upto) by (nonlinear_arith)
        requires
            k * hop_us < upto * hop_us,
            hop_us > 0,
    ;
    assert(k * hop_us <= (upto - 1) * hop_us) by (nonlinear_arith)
        requires
            k <= upto - 1,
            hop_us > 0,
    ;
}

/// The groove-in stands on a sample of the curve.
proof fn lemma_groove_in_on_curve(s: Seq<i16>, threshold2: int, hop_us: int)
    requires
        s.len() > 0,
    ensures
        0 <= groove_in_index(s, threshold2, hop_us) <= s.len() - 1,
{
    let sustain = groove_in_sustain(hop_us);
    lemma_first_sustained_range(s, threshold2, sustain, 0);
    let hit = first_sustained(s, threshold2, sustain, 0);
    if hit >= 0 {
        lemma_rise_start_range(s, hit);
    }
}

proof fn lemma_first_sustained_range(s: Seq<i16>, threshold2: int, sustain: int, from: int)
    requires
        0 <= from,
        sustain >= 1,
    ensures
        first_sustained(s, threshold2, sustain, from) == -1 || from <= first_sustained(
            s,
            threshold2,
            sustain,
            from,
        ) < s.len(),
    decreases s.len() - from,
{
    if from + sustain < s.len() && !all_above(s, threshold2, from, from + sustain) {
        lemma_first_sustained_range(s, threshold2, sustain, from + 1);
    }
}

proof fn lemma_rise_start_range(s: Seq<i16>, w: int)
    requires
        0 <= w,
    ensures
        0 <= rise_start(s, w) <= w,
    decreases w,
{
    if w > 0 && s[w - 1] < s[w] {
        lemma_rise_start_range(s, w - 1);
    }
}

/// The candidates among the samples `first..upto` stand at growing
/// positions between the two, as long as the positions can be counted.
pub proof fn lemma_candidates_increase(
    short: Seq<i16>,
    long: Seq<i16>,
    start: int,
    len: int,
    hop_us: int,
    min_prominence: int,
    first: int,
    upto: int,
)
    requires
        hop_us > 0,
        0 <= first,
        upto * hop_us <= u64::MAX,
    ensures
        positions_increase(
            candidates_in(short, long, start, len, hop_us, min_prominence, first, upto),
        ),
        positions_within(
            candidates_in(short, long, start, len, hop_us, min_prominence, first, upto),
            hop_us,
            first,
            upto,
        ),
    decreases upto - first,
{
    if upto > first {
        assert(0 <= first * hop_us <= (upto - 1) * hop_us < upto * hop_us) by (nonlinear_arith)
            requires
                hop_us > 0,
                0 <= first <= upto - 1,
        ;
        lemma_candidates_increase(
            short,
            long,
            start,
            len,
            hop_us,
            min_prominence,
            first,
            upto - 1,
        );
    }
}

/// After every round of the greedy selection, no two valleys that are
/// kept lie too close to each other.
pub proof fn lemma_selection_keeps_apart(s: Seq<Valley>, min_distance_us: int, rounds: nat)
    ensures
        forall|p: int, q: int|
            0 <= p < s.len() && 0 <= q < s.len() && p != q && #[trigger] selection_after(
                s,
                min_distance_us,
                rounds,
            ).1[p] && #[trigger] selection_after(s, min_distance_us, rounds).1[q] ==> !too_close(
                s[p],
                s[q],
                min_distance_us,
            ),
    decreases rounds,
{
    if rounds > 0 {
        let before = selection_after(s, min_distance_us, (rounds - 1) as nat);
        let after = selection_after(s, min_distance_us, rounds);
        lemma_selection_keeps_apart(s, min_distance_us, (rounds - 1) as nat);
        lemma_selection_len(s, min_distance_us, (rounds - 1) as nat);
        lemma_best_pending_range(s, before.0, s.len() as int);
        let b = best_pending(s, before.0, s.len() as int);
        assert forall|p: int, q: int|
            0 <= p < s.len() && 0 <= q < s.len() && p != q && #[trigger] after.1[p]
                && #[trigger] after.1[q] implies !too_close(s[p], s[q], min_distance_us) by {
            if b >= 0 {
                if p == b {
                    assert(before.1[q]);
                    assert(!conflicts(s, before.1, b, min_distance_us));
                } else if q == b {
                    assert(before.1[p]);
                    assert(!conflicts(s, before.1, b, min_distance_us));
                } else {
                    assert(before.1[p] && before.1[q]);
                }
            }
        }
    }
}

/// No two of the song boundaries of a recording lie less than the
/// shortest song apart, whatever the curve and the settings.
pub proof fn lemma_boundaries_are_apart(
    short: Seq<i16>,
    long: Seq<i16>,
    music_start_idx: int,
    music_end_idx: int,
    hop_us: int,
    min_prominence: int,
    min_song_duration_us: int,
    noise_floor: int,
)
    ensures
        kept_apart(
            boundaries_of(
                short,
                long,
                music_start_idx,
                music_end_idx,
                hop_us,
                min_prominence,
                min_song_duration_us,
                noise_floor,
            ),
            min_song_duration_us,
        ),
{
    let md = min_song_duration_us;
    let c = candidates_of(short, long, music_start_idx, music_end_idx, hop_us, min_prominence);
    let mask = proximity_mask(c, md);
    let p = masked(c, mask, c.len() as int);
    let g = masked(p, score_gap_mask(p), p.len() as int);
    lemma_selection_len(c, md, c.len());
    lemma_selection_keeps_apart(c, md, c.len());
    let rel = |a: Valley, b: Valley| !too_close(a, b, md);
    assert forall|i: int, j: int| 0 <= i < j < c.len() && mask[i] && mask[j] implies #[trigger] rel(
        c[i],
        c[j],
    ) by {}
    lemma_masked_pairwise(c, mask, c.len() as int, rel);
    assert forall|a: int, b: int| 0 <= a < b < p.len() implies !too_close(
        #[trigger] p[a],
        #[trigger] p[b],
        md,
    ) by {
        assert(rel(p[a], p[b]));
    }
    lemma_masked_keeps(p, score_gap_mask(p), md, hop_us, 0, 0);
    lemma_masked_keeps(g, depth_mask(g, noise_floor), md, hop_us, 0, 0);
}

/// The song boundaries of a recording stand at strictly growing
/// positions, for every curve whose samples stand at positions that can
/// be counted.
pub proof fn lemma_boundaries_increase(
    short: Seq<i16>,
    long: Seq<i16>,
    music_start_idx: int,
    music_end_idx: int,
    hop_us: int,
    min_prominence: int,
    min_song_duration_us: int,
    noise_floor: int,
)
    requires
        hop_us > 0,
        0 <= music_start_idx,
        short.len() * hop_us <= u64::MAX,
    ensures
        positions_increase(
            boundaries_of(
                short,
                long,
                music_start_idx,
                music_end_idx,
                hop_us,
                min_prominence,
                min_song_duration_us,
                noise_floor,
            ),
        ),
{
    let md = min_song_duration_us;
    let c = candidates_of(short, long, music_start_idx, music_end_idx, hop_us, min_prominence);
    let p = masked(c, proximity_mask(c, md), c.len() as int);
    let g = masked(p, score_gap_mask(p), p.len() as int);
    let len = region_end(short.len() as int, music_end_idx);
    let radius = hops_in(SEARCH_RADIUS_US as int, hop_us);
    assert(radius >= 0) by (nonlinear_arith)
        requires
            radius == SEARCH_RADIUS_US as int / hop_us,
            hop_us > 0,
    ;
    if len > music_start_idx + 10 {
        assert((len - radius) * hop_us <= short.len() * hop_us) by (nonlinear_arith)
            requires
                len - radius <= short.len(),
                hop_us > 0,
        ;
        lemma_candidates_increase(
            short,
            long,
            music_start_idx,
            len,
            hop_us,
            min_prominence,
            music_start_idx + radius,
            len - radius,
        );
    }
    lemma_selection_len(c, md, c.len());
    lemma_masked_keeps(c, proximity_mask(c, md), md, hop_us, 0, 0);
    lemma_masked_keeps(p, score_gap_mask(p), md, hop_us, 0, 0);
    lemma_masked_keeps(g, depth_mask(g, noise_floor), md, hop_us, 0, 0);
}

/// The analysis is a function of the curve and the settings: the same
/// recording analysed twice gives the same boundaries.
pub proof fn lemma_analysis_is_deterministic(
    short: Seq<i16>,
    long: Seq<i16>,
    music_start_idx: int,
    music_end_idx: int,
    hop_us: int,
    min_prominence: int,
    min_song_duration_us: int,
    noise_floor: int,
    first: Seq<Valley>,
    second: Seq<Valley>,
)
    requires
        first == boundaries_of(
            short,
            long,
            music_start_idx,
            music_end_idx,
            hop_us,
            min_prominence,
            min_song_duration_us,
            noise_floor,
        ),
        second == boundaries_of(
            short,
            long,
            music_start_idx,
            music_end_idx,
            hop_us,
            min_prominence,
            min_song_duration_us,
            noise_floor,
        ),
    ensures
        first == second,
        forall|a: int| 0 <= a < first.len() ==> first[a].position_us == second[a].position_us,
{
}

} // verus!
