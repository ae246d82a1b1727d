//! A blue-noise field on a toroidal tile.
//!
//! Points are spread over the tile by best-candidate placement: each new
//! point is the one of a handful of random candidates that lies furthest
//! from the points placed so far. The field holds, for every cell, the
//! squared wrap-around distance to the nearest point. A cell's noise value
//! is the square root of its entry over the square root of the field's
//! greatest entry.

use crate::grid::cell_index;
use crate::grid::cell_index_of;
use crate::grid::filled;
use crate::grid::lemma_cell_index_bounds;
use crate::random::RandomSource;
use crate::raster::render_rgba;
use crate::ratio::Ratio;
use crate::toroidal::distance_squared;
use crate::toroidal::distance_squared_of;
use crate::toroidal::lemma_distance_squared_bounds;
use vstd::prelude::*;

verus! {

/// What stands for the distance to the nearest point where there is no
/// point at all.
pub const NO_POINT: u64 = u64::MAX;

/// How a field is made.
#[derive(Clone, Copy, Debug)]
pub struct BlueNoiseParams {
    /// Side of the tile.
    pub tile_size: usize,
    /// Share of the tile's cells that should hold a point.
    pub density: Ratio,
    /// Number of candidates drawn for each point after the first.
    pub candidates_per_point: usize,
}

impl Default for BlueNoiseParams {
    /// A tile of 64 by 64 cells, a point on every tenth cell, 20 candidates
    /// for each point.
    fn default() -> (params: BlueNoiseParams)
        ensures
            params.tile_size == 64,
            params.density.num == 1,
            params.density.den == 10,
            params.candidates_per_point == 20,
    {
        BlueNoiseParams {
            tile_size: 64,
            density: Ratio { num: 1, den: 10 },
            candidates_per_point: 20,
        }
    }
}

/// Every point lies on the tile.
pub open spec fn points_on_tile(points: Seq<(usize, usize)>, size: int) -> bool {
    forall|k: int| 0 <= k < points.len() ==> (#[trigger] points[k]).0 < size && points[k].1 < size
}

/// No two points share a cell.
pub open spec fn points_distinct(points: Seq<(usize, usize)>) -> bool {
    forall|i: int, j: int|
        0 <= i < points.len() && 0 <= j < points.len() && i != j ==> #[trigger] points[i]
            != #[trigger] points[j]
}

/// The occupancy grid marks the cell of every point.
pub open spec fn points_marked(points: Seq<(usize, usize)>, occupied: Seq<bool>, size: int) -> bool {
    forall|k: int|
        0 <= k < points.len() ==> occupied[cell_index(
            (#[trigger] points[k]).0 as int,
            points[k].1 as int,
            size,
        )]
}

/// Squared wrap-around distance from the cell `(x, y)` to the nearest of the
/// points, or `NO_POINT` where there is none.
pub open spec fn nearest_distance(points: Seq<(usize, usize)>, x: int, y: int, size: int) -> int
    decreases points.len(),
{
    if points.len() == 0 {
        NO_POINT as int
    } else {
        let rest = nearest_distance(points.drop_last(), x, y, size);
        let last = distance_squared(x, y, points.last().0 as int, points.last().1 as int, size, size);
        if last < rest {
            last
        } else {
            rest
        }
    }
}

/// The nearest distance is the distance to one of the points and no more
/// than the distance to any of them.
pub proof fn lemma_nearest_distance(points: Seq<(usize, usize)>, x: int, y: int, size: int)
    requires
        points_on_tile(points, size),
        0 <= x < size,
        0 <= y < size,
        size * size <= usize::MAX,
    ensures
        forall|k: int|
            0 <= k < points.len() ==> nearest_distance(points, x, y, size) <= distance_squared(
                x,
                y,
                (#[trigger] points[k]).0 as int,
                points[k].1 as int,
                size,
                size,
            ),
        points.len() > 0 ==> exists|k: int|
            0 <= k < points.len() && nearest_distance(points, x, y, size) == distance_squared(
                x,
                y,
                (#[trigger] points[k]).0 as int,
                points[k].1 as int,
                size,
                size,
            ),
        0 <= nearest_distance(points, x, y, size) <= NO_POINT,
        points.len() > 0 ==> nearest_distance(points, x, y, size) < NO_POINT,
    decreases points.len(),
{
    if points.len() > 0 {
        let rest = points.drop_last();
        let last = points.last();
        lemma_nearest_distance(rest, x, y, size);
        lemma_distance_squared_bounds(x, y, last.0 as int, last.1 as int, size, size);
        assert(points[points.len() - 1] == last);
        if rest.len() > 0 {
            let k = choose|k: int|
                0 <= k < rest.len() && nearest_distance(rest, x, y, size) == distance_squared(
                    x,
                    y,
                    (#[trigger] rest[k]).0 as int,
                    rest[k].1 as int,
                    size,
                    size,
                );
            assert(points[k] == rest[k]);
        }
        assert forall|k: int| 0 <= k < points.len() implies nearest_distance(points, x, y, size)
            <= distance_squared(
            x,
            y,
            (#[trigger] points[k]).0 as int,
            points[k].1 as int,
            size,
            size,
        ) by {
            if k < rest.len() {
                assert(points[k] == rest[k]);
            }
        }
    }
}

/// A cell that holds no point lies at a positive distance from the nearest
/// point.
pub proof fn lemma_free_cell_is_away(
    points: Seq<(usize, usize)>,
    occupied: Seq<bool>,
    x: int,
    y: int,
    size: int,
)
    requires
        points_on_tile(points, size),
        points_marked(points, occupied, size),
        0 <= x < size,
        0 <= y < size,
        size * size <= usize::MAX,
        !occupied[cell_index(x, y, size)],
    ensures
        nearest_distance(points, x, y, size) > 0,
{
    lemma_nearest_distance(points, x, y, size);
    if points.len() > 0 {
        let k = choose|k: int|
            0 <= k < points.len() && nearest_distance(points, x, y, size) == distance_squared(
                x,
                y,
                (#[trigger] points[k]).0 as int,
                points[k].1 as int,
                size,
                size,
            );
        lemma_distance_squared_bounds(x, y, points[k].0 as int, points[k].1 as int, size, size);
    }
}

/// Number of points that a tile of the given side should hold at the given
/// density: the density's share of the cells, rounded down.
pub fn target_point_count(size: usize, density: Ratio) -> (count: usize)
    requires
        density.is_proper(),
        size * size <= usize::MAX,
    ensures
        count == density.floor_of(size * size),
        count <= size * size,
{
    density.scale_down(size * size)
}

/// Squared wrap-around distance from the cell `(x, y)` to the nearest of the
/// points, or `NO_POINT` where there is none.
pub fn nearest_distance_of(points: &Vec<(usize, usize)>, x: usize, y: usize, size: usize) -> (nearest:
    u64)
    requires
        points_on_tile(points@, size as int),
        x < size,
        y < size,
        size * size <= usize::MAX,
    ensures
        nearest == nearest_distance(points@, x as int, y as int, size as int),
{
    let mut nearest: u64 = NO_POINT;
    let mut k: usize = 0;
    while k < points.len()
        invariant
            k <= points.len(),
            points_on_tile(points@, size as int),
            x < size,
            y < size,
            size * size <= usize::MAX,
            nearest == nearest_distance(points@.take(k as int), x as int, y as int, size as int),
        decreases points.len() - k,
    {
        let point = points[k];
        proof {
            lemma_distance_squared_bounds(
                x as int,
                y as int,
                point.0 as int,
                point.1 as int,
                size as int,
                size as int,
            );
            assert(points@.take(k as int + 1).drop_last() =~= points@.take(k as int));
            assert(points@.take(k as int + 1).last() == point);
        }
        let distance = distance_squared_of((x, y), point, size, size) as u64;
        if distance < nearest {
            nearest = distance;
        }
        k = k + 1;
    }
    assert(points@.take(points.len() as int) =~= points@);
    nearest
}

/// The candidate at position `k` is the best of the candidates: it is free,
/// and it lies further from the points than every free candidate before it
/// and at least as far as every free candidate after it.
pub open spec fn is_best_candidate(
    points: Seq<(usize, usize)>,
    occupied: Seq<bool>,
    candidates: Seq<(usize, usize)>,
    size: int,
    k: int,
) -> bool {
    &&& 0 <= k < candidates.len()
    &&& !occupied[cell_index(candidates[k].0 as int, candidates[k].1 as int, size)]
    &&& forall|j: int|
        0 <= j < candidates.len() && !occupied[cell_index(
            (#[trigger] candidates[j]).0 as int,
            candidates[j].1 as int,
            size,
        )] ==> {
            let here = nearest_distance(points, candidates[k].0 as int, candidates[k].1 as int, size);
            let there = nearest_distance(points, candidates[j].0 as int, candidates[j].1 as int, size);
            there < here || (there == here && k <= j)
        }
}

/// Every candidate lies on a cell that holds a point.
pub open spec fn no_free_candidate(occupied: Seq<bool>, candidates: Seq<(usize, usize)>, size: int) -> bool {
    forall|j: int|
        0 <= j < candidates.len() ==> occupied[cell_index(
            (#[trigger] candidates[j]).0 as int,
            candidates[j].1 as int,
            size,
        )]
}

/// Picks, among the candidates that lie on free cells, the one furthest
/// from the points placed so far, and the first of them where several are
/// equally far. Returns its position among the candidates, or `None` where
/// no candidate lies on a free cell.
pub fn select_best_candidate(
    points: &Vec<(usize, usize)>,
    occupied: &Vec<bool>,
    candidates: &Vec<(usize, usize)>,
    size: usize,
) -> (best: Option<usize>)
    requires
        size * size <= usize::MAX,
        occupied.len() == size * size,
        points_on_tile(points@, size as int),
        points_on_tile(candidates@, size as int),
        points_marked(points@, occupied@, size as int),
    ensures
        best matches Some(k) ==> is_best_candidate(
            points@,
            occupied@,
            candidates@,
            size as int,
            k as int,
        ),
        best.is_none() ==> no_free_candidate(occupied@, candidates@, size as int),
{
    let mut any: bool = false;
    let mut best: usize = 0;
    let mut best_distance: u64 = 0;
    let mut j: usize = 0;
    while j < candidates.len()
        invariant
            j <= candidates.len(),
            size * size <= usize::MAX,
            occupied.len() == size * size,
            points_on_tile(points@, size as int),
            points_on_tile(candidates@, size as int),
            points_marked(points@, occupied@, size as int),
            !any ==> best_distance == 0,
            any ==> {
                &&& best < j
                &&& !occupied[cell_index(
                    candidates[best as int].0 as int,
                    candidates[best as int].1 as int,
                    size as int,
                )]
                &&& best_distance == nearest_distance(
                    points@,
                    candidates[best as int].0 as int,
                    candidates[best as int].1 as int,
                    size as int,
                )
            },
            forall|i: int|
                0 <= i < j && !occupied[cell_index(
                    (#[trigger] candidates[i]).0 as int,
                    candidates[i].1 as int,
                    size as int,
                )] ==> {
                    let there = nearest_distance(
                        points@,
                        candidates[i].0 as int,
                        candidates[i].1 as int,
                        size as int,
                    );
                    any && (there < best_distance || (there == best_distance && best <= i))
                },
        decreases candidates.len() - j,
    {
        let candidate = candidates[j];
        let index = cell_index_of(candidate.0, candidate.1, size, size);
        if !occupied[index] {
            let distance = nearest_distance_of(points, candidate.0, candidate.1, size);
            proof {
                lemma_free_cell_is_away(
                    points@,
                    occupied@,
                    candidate.0 as int,
                    candidate.1 as int,
                    size as int,
                );
            }
            if distance > best_distance {
                any = true;
                best = j;
                best_distance = distance;
            }
        }
        j = j + 1;
    }
    if any {
        Some(best)
    } else {
        None
    }
}

/// No point lies on the cell.
pub open spec fn is_free(points: Seq<(usize, usize)>, cell: (usize, usize)) -> bool {
    forall|k: int| 0 <= k < points.len() ==> #[trigger] points[k] != cell
}

/// The candidate at position `k` is the best free candidate: no point lies
/// on it, and it lies further from the points than every free candidate
/// before it and at least as far as every free candidate after it.
pub open spec fn is_best_free(
    points: Seq<(usize, usize)>,
    candidates: Seq<(usize, usize)>,
    size: int,
    k: int,
) -> bool {
    &&& 0 <= k < candidates.len()
    &&& is_free(points, candidates[k])
    &&& forall|j: int|
        0 <= j < candidates.len() && is_free(points, #[trigger] candidates[j]) ==> {
            let here = nearest_distance(points, candidates[k].0 as int, candidates[k].1 as int, size);
            let there = nearest_distance(points, candidates[j].0 as int, candidates[j].1 as int, size);
            there < here || (there == here && k <= j)
        }
}

/// A point lies on every candidate.
pub open spec fn none_free(points: Seq<(usize, usize)>, candidates: Seq<(usize, usize)>) -> bool {
    forall|j: int| 0 <= j < candidates.len() ==> !is_free(points, #[trigger] candidates[j])
}

/// `after` is what a round with the given candidates makes of the points
/// `before`: the best free candidate is added at the end, and nothing
/// changes where no candidate is free.
pub open spec fn is_round(
    before: Seq<(usize, usize)>,
    candidates: Seq<(usize, usize)>,
    after: Seq<(usize, usize)>,
    size: int,
) -> bool {
    if none_free(before, candidates) {
        after == before
    } else {
        exists|k: int| #[trigger]
            is_best_free(before, candidates, size, k) && after == before.push(candidates[k])
    }
}

/// The occupancy grid marks exactly the cells on which a point lies.
pub open spec fn occupancy_matches(points: Seq<(usize, usize)>, occupied: Seq<bool>, size: int) -> bool {
    forall|x: usize, y: usize|
        x < size && y < size ==> (occupied[#[trigger] cell_index(x as int, y as int, size)]
            <==> !is_free(points, (x, y)))
}

/// `last` is what placing `first` and then playing the rounds makes:
/// `first` lies on the tile, there is one round less than the tile should
/// hold points, each round has `candidates_per_point` candidates on the
/// tile, and round `r` leads from `states[r]` to `states[r + 1]`.
pub open spec fn is_placement(
    first: (usize, usize),
    rounds: Seq<Seq<(usize, usize)>>,
    states: Seq<Seq<(usize, usize)>>,
    last: Seq<(usize, usize)>,
    size: int,
    target: int,
    candidates_per_point: int,
) -> bool {
    &&& first.0 < size && first.1 < size
    &&& rounds.len() == target - 1
    &&& states.len() == rounds.len() + 1
    &&& states[0] == seq![first]
    &&& states[rounds.len() as int] == last
    &&& forall|r: int|
        0 <= r < rounds.len() ==> {
            &&& (#[trigger] rounds[r]).len() == candidates_per_point
            &&& points_on_tile(rounds[r], size)
            &&& is_round(states[r], rounds[r], states[r + 1], size)
        }
}

/// `points` are the points that best-candidate placement leaves on a tile
/// that should hold `target` of them: none where the target is zero; else a
/// first point somewhere on the tile, followed by what `target - 1` rounds
/// of `candidates_per_point` candidates each add to it. Which cells are
/// drawn is left open.
pub open spec fn is_placed(
    points: Seq<(usize, usize)>,
    size: int,
    target: int,
    candidates_per_point: int,
) -> bool {
    if target <= 0 {
        points.len() == 0
    } else {
        exists|first: (usize, usize), rounds: Seq<Seq<(usize, usize)>>, states: Seq<Seq<(usize, usize)>>| #[trigger]
            is_placement(first, rounds, states, points, size, target, candidates_per_point)
    }
}

/// Where the grid matches the points, a cell on the tile is free exactly
/// where the grid is clear.
pub proof fn lemma_free_is_clear(
    points: Seq<(usize, usize)>,
    occupied: Seq<bool>,
    size: int,
    cell: (usize, usize),
)
    requires
        occupancy_matches(points, occupied, size),
        cell.0 < size,
        cell.1 < size,
    ensures
        is_free(points, cell) <==> !occupied[cell_index(cell.0 as int, cell.1 as int, size)],
{
    assert(occupied[cell_index(cell.0 as int, cell.1 as int, size)] <==> !is_free(
        points,
        (cell.0, cell.1),
    ));
    assert((cell.0, cell.1) == cell);
}

/// Placing a point on a free cell and marking the cell keeps the grid
/// matching the points, the points on the tile and the points apart.
pub proof fn lemma_place_on_free(
    points: Seq<(usize, usize)>,
    occupied: Seq<bool>,
    size: int,
    cell: (usize, usize),
)
    requires
        occupied.len() == size * size,
        occupancy_matches(points, occupied, size),
        points_on_tile(points, size),
        points_distinct(points),
        points_marked(points, occupied, size),
        cell.0 < size,
        cell.1 < size,
        is_free(points, cell),
    ensures
        occupancy_matches(
            points.push(cell),
            occupied.update(cell_index(cell.0 as int, cell.1 as int, size), true),
            size,
        ),
        points_on_tile(points.push(cell), size),
        points_distinct(points.push(cell)),
        points_marked(
            points.push(cell),
            occupied.update(cell_index(cell.0 as int, cell.1 as int, size), true),
            size,
        ),
{
    let after = points.push(cell);
    let index = cell_index(cell.0 as int, cell.1 as int, size);
    let marked = occupied.update(index, true);
    lemma_cell_index_bounds(cell.0 as int, cell.1 as int, size, size);
    assert forall|k: int| 0 <= k < after.len() implies marked[cell_index(
        (#[trigger] after[k]).0 as int,
        after[k].1 as int,
        size,
    )] by {
        if k < points.len() {
            assert(after[k] == points[k]);
            lemma_cell_index_bounds(points[k].0 as int, points[k].1 as int, size, size);
        }
    }
    assert forall|i: int, j: int|
        0 <= i < after.len() && 0 <= j < after.len() && i != j implies #[trigger] after[i]
        != #[trigger] after[j] by {
        if i < points.len() {
            assert(after[i] == points[i]);
        }
        if j < points.len() {
            assert(after[j] == points[j]);
        }
    }
    assert forall|x: usize, y: usize| x < size && y < size implies (marked[#[trigger] cell_index(
        x as int,
        y as int,
        size,
    )] <==> !is_free(after, (x, y))) by {
        let here = cell_index(x as int, y as int, size);
        lemma_cell_index_bounds(x as int, y as int, size, size);
        assert(occupied[here] <==> !is_free(points, (x, y)));
        if here == index {
            crate::grid::lemma_cell_index_injective(
                x as int,
                y as int,
                cell.0 as int,
                cell.1 as int,
                size,
            );
            assert((x, y) == cell);
            assert(after[points.len() as int] == cell);
        } else {
            if !is_free(points, (x, y)) {
                let k = choose|k: int| 0 <= k < points.len() && points[k] == (x, y);
                assert(after[k] == (x, y));
            }
            if !is_free(after, (x, y)) {
                let k = choose|k: int| 0 <= k < after.len() && after[k] == (x, y);
                if k < points.len() {
                    assert(points[k] == after[k]);
                }
            }
        }
    }
}

/// Plays one round: places a point on the best free candidate, and marks
/// its cell; places nothing where no candidate is free. Returns whether a
/// point was placed.
pub fn place_round(
    points: &mut Vec<(usize, usize)>,
    occupied: &mut Vec<bool>,
    candidates: &Vec<(usize, usize)>,
    size: usize,
) -> (placed: bool)
    requires
        size * size <= usize::MAX,
        old(occupied).len() == size * size,
        points_on_tile(old(points)@, size as int),
        points_on_tile(candidates@, size as int),
        points_distinct(old(points)@),
        points_marked(old(points)@, old(occupied)@, size as int),
        occupancy_matches(old(points)@, old(occupied)@, size as int),
    ensures
        is_round(old(points)@, candidates@, final(points)@, size as int),
        placed <==> !none_free(old(points)@, candidates@),
        placed ==> final(points).len() == old(points).len() + 1,
        !placed ==> final(points)@ == old(points)@ && final(occupied)@ == old(occupied)@,
        final(occupied).len() == size * size,
        points_on_tile(final(points)@, size as int),
        points_distinct(final(points)@),
        points_marked(final(points)@, final(occupied)@, size as int),
        occupancy_matches(final(points)@, final(occupied)@, size as int),
{
    let found = select_best_candidate(points, occupied, candidates, size);
    proof {
        assert forall|j: int| 0 <= j < candidates.len() implies (is_free(
            points@,
            #[trigger] candidates[j],
        ) <==> !occupied[cell_index(candidates[j].0 as int, candidates[j].1 as int, size as int)]) by {
            lemma_free_is_clear(points@, occupied@, size as int, candidates[j]);
        }
    }
    match found {
        Some(k) => {
            let chosen = candidates[k];
            let index = cell_index_of(chosen.0, chosen.1, size, size);
            proof {
                assert(is_free(points@, candidates[k as int]));
                assert(is_best_free(points@, candidates@, size as int, k as int));
                lemma_place_on_free(points@, occupied@, size as int, chosen);
            }
            points.push(chosen);
            occupied.set(index, true);
            true
        },
        None => false,
    }
}

/// The placement still holds when a round is added to it.
pub proof fn lemma_push_round(
    first: (usize, usize),
    rounds: Seq<Seq<(usize, usize)>>,
    states: Seq<Seq<(usize, usize)>>,
    last: Seq<(usize, usize)>,
    candidates: Seq<(usize, usize)>,
    next: Seq<(usize, usize)>,
    size: int,
    candidates_per_point: int,
)
    requires
        is_placement(
            first,
            rounds,
            states,
            last,
            size,
            rounds.len() as int + 1,
            candidates_per_point,
        ),
        candidates.len() == candidates_per_point,
        points_on_tile(candidates, size),
        is_round(last, candidates, next, size),
    ensures
        is_placement(
            first,
            rounds.push(candidates),
            states.push(next),
            next,
            size,
            rounds.len() as int + 2,
            candidates_per_point,
        ),
{
    let rounds2 = rounds.push(candidates);
    let states2 = states.push(next);
    assert forall|r: int| 0 <= r < rounds2.len() implies {
        &&& (#[trigger] rounds2[r]).len() == candidates_per_point
        &&& points_on_tile(rounds2[r], size)
        &&& is_round(states2[r], rounds2[r], states2[r + 1], size)
    } by {
        if r < rounds.len() {
            assert(rounds2[r] == rounds[r]);
            assert(is_round(states[r], rounds[r], states[r + 1], size));
        }
    }
}

/// Spreads points over a tile of the given side by best-candidate
/// placement, and returns them in the order in which they were placed.
///
/// The first point is drawn uniformly from the tile. Every further round
/// draws `candidates_per_point` cells uniformly from the tile and places a
/// point on the best of them; a round in which every candidate lies on a
/// cell that is taken places nothing. There are as many rounds, the first
/// point counted as one, as the tile should hold points at the given
/// density.
pub fn place_points(
    size: usize,
    density: Ratio,
    candidates_per_point: usize,
    rng: &mut RandomSource,
) -> (points: Vec<(usize, usize)>)
    requires
        density.is_proper(),
        size * size <= usize::MAX,
    ensures
        is_placed(
            points@,
            size as int,
            density.floor_of(size * size),
            candidates_per_point as int,
        ),
        points_on_tile(points@, size as int),
        points_distinct(points@),
        points.len() <= density.floor_of(size * size),
        density.floor_of(size * size) > 0 ==> points.len() >= 1,
{
    let num_points = target_point_count(size, density);
    let mut points: Vec<(usize, usize)> = Vec::new();
    let mut occupied: Vec<bool> = filled(size * size, false);
    if num_points == 0 {
        return points;
    }
    assert(size > 0) by (nonlinear_arith)
        requires
            size * size > 0,
            size >= 0,
    ;
    let first_x = rng.next_below(size);
    let first_y = rng.next_below(size);
    let first_index = cell_index_of(first_x, first_y, size, size);
    proof {
        assert forall|x: usize, y: usize| x < size && y < size implies (occupied[#[trigger] cell_index(
            x as int,
            y as int,
            size as int,
        )] <==> !is_free(points@, (x, y))) by {
            lemma_cell_index_bounds(x as int, y as int, size as int, size as int);
        }
        lemma_place_on_free(points@, occupied@, size as int, (first_x, first_y));
    }
    points.push((first_x, first_y));
    occupied.set(first_index, true);
    let ghost first = (first_x, first_y);
    let ghost mut rounds: Seq<Seq<(usize, usize)>> = Seq::empty();
    let ghost mut states: Seq<Seq<(usize, usize)>> = seq![points@];
    assert(points@ =~= seq![first]);
    let mut round: usize = 1;
    while round < num_points
        invariant
            1 <= round <= num_points,
            size > 0,
            size * size <= usize::MAX,
            occupied.len() == size * size,
            1 <= points.len() <= round,
            points_on_tile(points@, size as int),
            points_distinct(points@),
            points_marked(points@, occupied@, size as int),
            occupancy_matches(points@, occupied@, size as int),
            rounds.len() == round - 1,
            is_placement(
                first,
                rounds,
                states,
                points@,
                size as int,
                round as int,
                candidates_per_point as int,
            ),
        decreases num_points - round,
    {
        let mut candidates: Vec<(usize, usize)> = Vec::new();
        let mut drawn: usize = 0;
        while drawn < candidates_per_point
            invariant
                drawn <= candidates_per_point,
                candidates.len() == drawn,
                size > 0,
                points_on_tile(candidates@, size as int),
            decreases candidates_per_point - drawn,
        {
            let cand_x = rng.next_below(size);
            let cand_y = rng.next_below(size);
            candidates.push((cand_x, cand_y));
            drawn = drawn + 1;
        }
        let ghost before = points@;
        place_round(&mut points, &mut occupied, &candidates, size);
        proof {
            lemma_push_round(
                first,
                rounds,
                states,
                before,
                candidates@,
                points@,
                size as int,
                candidates_per_point as int,
            );
            rounds = rounds.push(candidates@);
            states = states.push(points@);
        }
        round = round + 1;
    }
    points
}

/// The squared distances from every cell of the tile to the nearest point,
/// row-major, and the greatest of them.
pub struct BlueNoiseField {
    pub size: usize,
    pub points: Vec<(usize, usize)>,
    pub distances: Vec<u64>,
    pub max_distance: u64,
}

impl BlueNoiseField {
    /// The points lie on the tile, no two on one cell; every entry is the
    /// squared distance from its cell to the nearest point; and
    /// `max_distance` is the greatest entry, or zero on a tile without
    /// cells.
    pub open spec fn wf(&self) -> bool {
        &&& self.distances.len() == self.size * self.size
        &&& points_on_tile(self.points@, self.size as int)
        &&& points_distinct(self.points@)
        &&& forall|x: int, y: int|
            0 <= x < self.size && 0 <= y < self.size ==> self.distances[#[trigger] cell_index(
                x,
                y,
                self.size as int,
            )] == nearest_distance(self.points@, x, y, self.size as int)
        &&& forall|i: int| 0 <= i < self.distances.len() ==> #[trigger] self.distances[i] <= self.max_distance
        &&& self.size > 0 ==> exists|i: int|
            0 <= i < self.distances.len() && #[trigger] self.distances[i] == self.max_distance
        &&& self.size == 0 ==> self.max_distance == 0
    }

    /// The entry under the pixel `(x, y)` of an image that the tile is
    /// repeated over.
    pub open spec fn tiled_distance(&self, x: int, y: int) -> int {
        self.distances[cell_index(x % (self.size as int), y % (self.size as int), self.size as int)] as int
    }

    /// The entry under the pixel `(x, y)` of an image that the tile is
    /// repeated over, together with the greatest entry. The noise value of
    /// the pixel is the square root of the first over the square root of the
    /// second, and zero where the second is zero.
    pub fn sample(&self, x: usize, y: usize) -> (entry: (u64, u64))
        requires
            self.wf(),
            self.size > 0,
        ensures
            entry.0 == self.tiled_distance(x as int, y as int),
            entry.1 == self.max_distance,
            entry.0 <= entry.1,
    {
        let index = cell_index_of(x % self.size, y % self.size, self.size, self.size);
        (self.distances[index], self.max_distance)
    }
}

/// Builds the field of squared distances to the nearest of the points.
pub fn build_distance_field(points: Vec<(usize, usize)>, size: usize) -> (field: BlueNoiseField)
    requires
        points_on_tile(points@, size as int),
        points_distinct(points@),
        size * size <= usize::MAX,
    ensures
        field.wf(),
        field.size == size,
        field.points@ == points@,
{
    let mut distances: Vec<u64> = Vec::new();
    let mut max_distance: u64 = 0;
    let mut y: usize = 0;
    while y < size
        invariant
            y <= size,
            size * size <= usize::MAX,
            points_on_tile(points@, size as int),
            distances.len() == y * size,
            forall|cx: int, cy: int|
                0 <= cx < size && 0 <= cy < y ==> distances[#[trigger] cell_index(cx, cy, size as int)]
                    == nearest_distance(points@, cx, cy, size as int),
            forall|i: int| 0 <= i < distances.len() ==> #[trigger] distances[i] <= max_distance,
            distances.len() > 0 ==> exists|i: int|
                0 <= i < distances.len() && #[trigger] distances[i] == max_distance,
            distances.len() == 0 ==> max_distance == 0,
        decreases size - y,
    {
        let mut x: usize = 0;
        while x < size
            invariant
                x <= size,
                y < size,
                size * size <= usize::MAX,
                points_on_tile(points@, size as int),
                distances.len() == y * size + x,
                forall|cx: int, cy: int|
                    0 <= cx < size && (0 <= cy < y || (cy == y && cx < x))
                        ==> distances[#[trigger] cell_index(cx, cy, size as int)]
                        == nearest_distance(points@, cx, cy, size as int),
                forall|i: int| 0 <= i < distances.len() ==> #[trigger] distances[i] <= max_distance,
                distances.len() > 0 ==> exists|i: int|
                    0 <= i < distances.len() && #[trigger] distances[i] == max_distance,
                distances.len() == 0 ==> max_distance == 0,
            decreases size - x,
        {
            let index = cell_index_of(x, y, size, size);
            let distance = nearest_distance_of(&points, x, y, size);
            proof {
                assert forall|cx: int, cy: int|
                    0 <= cx < size && (0 <= cy < y || (cy == y && cx < x)) implies cell_index(
                    cx,
                    cy,
                    size as int,
                ) < index by {
                    if cy < y {
                        assert(cy * size + size <= y * size) by (nonlinear_arith)
                            requires
                                cy + 1 <= y,
                                0 <= size,
                        ;
                    }
                }
            }
            let ghost before = distances@;
            let ghost witness = if before.len() > 0 {
                choose|i: int| 0 <= i < before.len() && #[trigger] before[i] == max_distance
            } else {
                0
            };
            distances.push(distance);
            if distance > max_distance {
                max_distance = distance;
                assert(distances[index as int] == max_distance);
            } else {
                assert(distances.len() > 0 ==> distances[if before.len() > 0 {
                    witness
                } else {
                    index as int
                }] == max_distance);
            }
            x = x + 1;
        }
        assert((y + 1) * size == y * size + size) by (nonlinear_arith);
        y = y + 1;
    }
    proof {
        if size > 0 {
            assert(size * size > 0) by (nonlinear_arith)
                requires
                    size > 0,
            ;
        }
    }
    BlueNoiseField { size, points, distances, max_distance }
}

/// Makes a blue-noise field: spreads the points, then measures every cell's
/// distance to them.
pub fn generate_blue_noise_pattern(params: &BlueNoiseParams, rng: &mut RandomSource) -> (field:
    BlueNoiseField)
    requires
        params.density.is_proper(),
        params.tile_size * params.tile_size <= usize::MAX,
    ensures
        field.wf(),
        field.size == params.tile_size,
        is_placed(
            field.points@,
            params.tile_size as int,
            params.density.floor_of(params.tile_size * params.tile_size),
            params.candidates_per_point as int,
        ),
        field.points.len() <= params.density.floor_of(params.tile_size * params.tile_size),
        params.density.floor_of(params.tile_size * params.tile_size) > 0 ==> field.points.len() >= 1,
{
    let points = place_points(params.tile_size, params.density, params.candidates_per_point, rng);
    build_distance_field(points, params.tile_size)
}

/// Whether a sample comes out dark once noise is added to it.
///
/// With `n` the noise value, the square root of `distance / max_distance`
/// (zero where `max_distance` is zero), the noised sample is
/// `sample + (255 * n - 128) / 2`, held within 0 and 255, and it is dark
/// where it lies below the threshold. In whole numbers: the threshold is
/// not zero, `c = 2 * threshold + 128 - 2 * sample` is positive, and
/// `255 * n < c`, which is `65025 * distance < c * c * max_distance`.
pub open spec fn noised_is_dark(sample: u8, distance: int, max_distance: int, threshold: u8) -> bool {
    let c = 2 * threshold + 128 - 2 * sample;
    &&& threshold > 0
    &&& c > 0
    &&& (max_distance == 0 || 65025 * distance < c * c * max_distance)
}

/// Whether a sample comes out dark once noise is added to it.
pub fn sample_is_dark(sample: u8, distance: u64, max_distance: u64, threshold: u8) -> (dark: bool)
    ensures
        dark == noised_is_dark(sample, distance as int, max_distance as int, threshold),
{
    let c: i32 = 2 * (threshold as i32) + 128 - 2 * (sample as i32);
    if threshold == 0 || c <= 0 {
        return false;
    }
    if max_distance == 0 {
        return true;
    }
    assert(0 < c * c <= 638 * 638) by (nonlinear_arith)
        requires
            0 < c <= 638,
    ;
    let square: u128 = (c * c) as u128;
    assert(square * max_distance <= 407_044 * 0xffff_ffff_ffff_ffff) by (nonlinear_arith)
        requires
            0 <= square <= 407_044,
            0 <= max_distance <= 0xffff_ffff_ffff_ffff,
    ;
    assert(c * c * max_distance == square * max_distance);
    65025 * (distance as u128) < square * (max_distance as u128)
}

/// `pattern` is the image `input` with the field's noise added and the
/// result thresholded: a pixel is set where it does not come out dark.
pub open spec fn is_noise_thresholded(
    pattern: Seq<bool>,
    input: Seq<u8>,
    width: int,
    height: int,
    threshold: u8,
    field: BlueNoiseField,
) -> bool {
    &&& pattern.len() == width * height
    &&& forall|x: int, y: int|
        0 <= x < width && 0 <= y < height ==> pattern[#[trigger] cell_index(x, y, width)]
            == !noised_is_dark(
            input[cell_index(x, y, width)],
            field.tiled_distance(x, y),
            field.max_distance as int,
            threshold,
        )
}

/// Adds the field's noise to the `width` by `height` image `input` and
/// thresholds the result.
pub fn threshold_with_noise(
    input: &[u8],
    width: usize,
    height: usize,
    threshold: u8,
    field: &BlueNoiseField,
) -> (pattern: Vec<bool>)
    requires
        field.wf(),
        field.size > 0,
        input.len() == width * height,
    ensures
        is_noise_thresholded(pattern@, input@, width as int, height as int, threshold, *field),
{
    let mut pattern: Vec<bool> = Vec::new();
    let mut y: usize = 0;
    while y < height
        invariant
            y <= height,
            field.wf(),
            field.size > 0,
            input.len() == width * height,
            pattern.len() == y * width,
            forall|cx: int, cy: int|
                0 <= cx < width && 0 <= cy < y ==> pattern[#[trigger] cell_index(cx, cy, width as int)]
                    == !noised_is_dark(
                    input[cell_index(cx, cy, width as int)],
                    field.tiled_distance(cx, cy),
                    field.max_distance as int,
                    threshold,
                ),
        decreases height - y,
    {
        let mut x: usize = 0;
        while x < width
            invariant
                x <= width,
                y < height,
                field.wf(),
                field.size > 0,
                input.len() == width * height,
                pattern.len() == y * width + x,
                forall|cx: int, cy: int|
                    0 <= cx < width && (0 <= cy < y || (cy == y && cx < x)) ==> pattern[#[trigger] cell_index(
                        cx,
                        cy,
                        width as int,
                    )] == !noised_is_dark(
                        input[cell_index(cx, cy, width as int)],
                        field.tiled_distance(cx, cy),
                        field.max_distance as int,
                        threshold,
                    ),
            decreases width - x,
        {
            let index = cell_index_of(x, y, width, height);
            let (distance, max_distance) = field.sample(x, y);
            let dark = sample_is_dark(input[index], distance, max_distance, threshold);
            proof {
                assert forall|cx: int, cy: int|
                    0 <= cx < width && (0 <= cy < y || (cy == y && cx < x)) implies cell_index(
                    cx,
                    cy,
                    width as int,
                ) < index by {
                    if cy < y {
                        assert(cy * width + width <= y * width) by (nonlinear_arith)
                            requires
                                cy + 1 <= y,
                                0 <= width,
                        ;
                    }
                }
            }
            pattern.push(!dark);
            x = x + 1;
        }
        assert((y + 1) * width == y * width + width) by (nonlinear_arith);
        y = y + 1;
    }
    proof {
        assert(height * width == width * height) by (nonlinear_arith);
    }
    pattern
}

/// `output` renders the image `input` with the field's noise added and the
/// result thresholded.
pub open spec fn renders_noise_thresholded(
    output: Seq<u8>,
    input: Seq<u8>,
    width: int,
    height: int,
    threshold: u8,
    field: BlueNoiseField,
) -> bool {
    exists|pattern: Seq<bool>| #[trigger]
        is_noise_thresholded(pattern, input, width, height, threshold, field)
            && crate::raster::is_rgba_of(output, pattern)
}

/// Dithers the `width` by `height` image `input` with the noise of a
/// freshly made field of the default make, and renders the result as four
/// bytes a pixel.
pub fn blue_noise_dither(
    input: &[u8],
    width: usize,
    height: usize,
    threshold: u8,
    rng: &mut RandomSource,
) -> (output: Vec<u8>)
    requires
        input.len() == width * height,
        4 * (width * height) <= usize::MAX,
    ensures
        exists|field: BlueNoiseField|
            {
                &&& field.wf()
                &&& field.size == 64
                &&& 1 <= field.points.len() <= 409
                &&& is_placed(field.points@, 64, 409, 20)
                &&& #[trigger] renders_noise_thresholded(
                    output@,
                    input@,
                    width as int,
                    height as int,
                    threshold,
                    field,
                )
            },
{
    let params = BlueNoiseParams::default();
    assert(params.density.floor_of(4096int) == 409) by {
        assert(4096 * 1 / 10 == 409int);
    }
    let field = generate_blue_noise_pattern(&params, rng);
    let pattern = threshold_with_noise(input, width, height, threshold, &field);
    let output = render_rgba(&pattern);
    proof {
        assert(is_noise_thresholded(
            pattern@,
            input@,
            width as int,
            height as int,
            threshold,
            field,
        ) && crate::raster::is_rgba_of(output@, pattern@));
        assert(renders_noise_thresholded(
            output@,
            input@,
            width as int,
            height as int,
            threshold,
            field,
        ));
    }
    output
}

} // verus!
