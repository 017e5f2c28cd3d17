//! Turning pixels into Gaussians: which pixels get one, and the arrays that
//! describe the new ones.
use crate::dash::{cell_set, contains_cell, insert_cell, new_cells};
use dashmap::DashSet;
use std::collections::hash_map::RandomState;
use vstd::prelude::*;

verus! {

/// A cell of the occupancy grid.
pub type Cell = (i32, i32, i32);

/// Where a Gaussian lies: its grid cell, and its mean as bit patterns.
#[derive(Clone, Copy, Debug, PartialEq, Eq)]
pub struct Occupant {
    pub cell: (i32, i32, i32),
    pub mean: [u32; 3],
}

/// What an occupancy grid holds, as mathematical values: the cells in which a
/// Gaussian lies, and the means of all Gaussians.
#[verifier::ext_equal]
pub struct GridState {
    pub cells: Set<Cell>,
    pub means: Seq<[u32; 3]>,
}

/// What a grid of these Gaussians holds.
pub open spec fn grid_of(occupants: Seq<Occupant>) -> GridState {
    GridState {
        cells: occupants.map_values(|o: Occupant| o.cell).to_set(),
        means: occupants.map_values(|o: Occupant| o.mean),
    }
}

/// Whether the function always gives what `close` says.
pub open spec fn computes_near<N: Fn([u32; 3], [u32; 3]) -> bool>(
    near: N,
    close: spec_fn([u32; 3], [u32; 3]) -> bool,
) -> bool {
    forall|a: [u32; 3], b: [u32; 3], out: bool| call_ensures(near, (a, b), out) ==> out == close(a, b)
}

/// Whether one of the means is too near.
pub open spec fn crowded(
    means: Seq<[u32; 3]>,
    mean: [u32; 3],
    close: spec_fn([u32; 3], [u32; 3]) -> bool,
) -> bool {
    exists|k: int| 0 <= k < means.len() && close(mean, #[trigger] means[k])
}

/// Coarse occupancy of space: the grid cells in which a Gaussian already lies,
/// and the means of the Gaussians for the finer test of their distance.
pub struct OccupancyGrid {
    cells: DashSet<[i32; 3], RandomState>,
    means: Vec<[u32; 3]>,
}

impl View for OccupancyGrid {
    type V = GridState;

    closed spec fn view(&self) -> GridState {
        GridState { cells: cell_set(self.cells), means: self.means@ }
    }
}

impl OccupancyGrid {
    /// A grid without Gaussians.
    pub fn new() -> (grid: Self)
        ensures
            grid@ == (GridState { cells: Set::empty(), means: Seq::empty() }),
    {
        OccupancyGrid { cells: new_cells(), means: Vec::new() }
    }

    /// Adds a Gaussian.
    pub fn insert(&mut self, occupant: Occupant)
        ensures
            final(self)@ == (GridState {
                cells: old(self)@.cells.insert(occupant.cell),
                means: old(self)@.means.push(occupant.mean),
            }),
    {
        insert_cell(&mut self.cells, occupant.cell);
        self.means.push(occupant.mean);
    }

    /// Whether no Gaussian lies in the cell.
    pub fn is_free(&self, cell: (i32, i32, i32)) -> (free: bool)
        ensures
            free == !self@.cells.contains(cell),
    {
        !contains_cell(&self.cells, cell)
    }

    /// Whether a Gaussian lies too near. The latest are looked at first:
    /// neighbours in an image come one after the other.
    pub fn is_crowded<N: Fn([u32; 3], [u32; 3]) -> bool>(&self, mean: [u32; 3], near: &N) -> (found: bool)
        requires
            forall|a: [u32; 3], b: [u32; 3]| #[trigger] call_requires(*near, (a, b)),
        ensures
            forall|close: spec_fn([u32; 3], [u32; 3]) -> bool| #[trigger]
                computes_near(*near, close) ==> found == crowded(self@.means, mean, close),
    {
        let mut k: usize = self.means.len();
        while k > 0
            invariant
                k <= self.means@.len(),
                forall|a: [u32; 3], b: [u32; 3]| #[trigger] call_requires(*near, (a, b)),
                forall|close: spec_fn([u32; 3], [u32; 3]) -> bool, j: int|
                    #![trigger computes_near(*near, close), self.means@[j]]
                    computes_near(*near, close) && k <= j < self.means@.len() ==> !close(mean, self.means@[j]),
            decreases k,
        {
            k = k - 1;
            let other: [u32; 3] = self.means[k];
            if near(mean, other) {
                assert forall|close: spec_fn([u32; 3], [u32; 3]) -> bool| #[trigger]
                    computes_near(*near, close) implies crowded(self@.means, mean, close) by {
                    assert(close(mean, self@.means[k as int]));
                }
                return true;
            }
        }
        false
    }
}

/// The grid of the given Gaussians.
pub fn compute_occupancy_grid(occupants: &Vec<Occupant>) -> (grid: OccupancyGrid)
    ensures
        grid@ == grid_of(occupants@),
{
    let mut grid = OccupancyGrid::new();
    let n: usize = occupants.len();
    assert(grid@ =~= grid_of(occupants@.take(0)));
    for i in 0..n
        invariant
            n == occupants@.len(),
            grid@ == grid_of(occupants@.take(i as int)),
    {
        grid.insert(occupants[i]);
        proof {
            let before = occupants@.take(i as int).map_values(|o: Occupant| o.cell);
            let after = occupants@.take(i + 1).map_values(|o: Occupant| o.cell);
            let cell = occupants@[i as int].cell;
            assert(after =~= before.push(cell));
            assert forall|c: Cell| after.to_set().contains(c) <==> before.to_set().insert(cell).contains(c) by {
                if after.contains(c) {
                    let k = after.index_of(c);
                    if k < i {
                        assert(before[k] == c);
                    }
                }
                if before.contains(c) {
                    let k = before.index_of(c);
                    assert(after[k] == c);
                }
                assert(after[i as int] == cell);
            }
            assert(grid@ =~= grid_of(occupants@.take(i + 1)));
        }
    }
    assert(occupants@.take(n as int) =~= occupants@);
    grid
}

/// A pixel with the Gaussian that it would become: the grid cell in which the
/// mean lies, and the bit patterns of mean, colour coefficient and scale.
#[derive(Clone, Copy, Debug, PartialEq, Eq)]
pub struct ProjectedPixel {
    pub idx: usize,
    pub cell: (i32, i32, i32),
    pub mean: [u32; 3],
    pub color: u32,
    pub log_scale: u32,
}

/// The cells that are occupied once the points have been added.
pub open spec fn occupied_with(taken: Set<Cell>, points: Seq<ProjectedPixel>) -> Set<Cell> {
    Set::new(
        |c: Cell|
            taken.contains(c) || exists|i: int|
                0 <= i < points.len() && (#[trigger] points[i]).cell == c,
    )
}

/// What a grid holds once the points have been added.
pub open spec fn with_points(grid: GridState, points: Seq<ProjectedPixel>) -> GridState {
    GridState {
        cells: occupied_with(grid.cells, points),
        means: grid.means + points.map_values(|p: ProjectedPixel| p.mean),
    }
}

/// Whether a point can be added: its cell is free, and no mean is too near.
pub open spec fn admits(
    grid: GridState,
    p: ProjectedPixel,
    close: spec_fn([u32; 3], [u32; 3]) -> bool,
) -> bool {
    !grid.cells.contains(p.cell) && !crowded(grid.means, p.mean, close)
}

/// The points that can be added when it is their turn, one after the other.
pub open spec fn placed(
    grid: GridState,
    points: Seq<ProjectedPixel>,
    close: spec_fn([u32; 3], [u32; 3]) -> bool,
) -> Seq<ProjectedPixel>
    decreases points.len(),
{
    if points.len() == 0 {
        Seq::empty()
    } else {
        let kept = placed(grid, points.drop_last(), close);
        if admits(with_points(grid, kept), points.last(), close) {
            kept.push(points.last())
        } else {
            kept
        }
    }
}

/// Whether no point is too near to one of the means, or to a point before it.
pub open spec fn keeps_distance(
    means: Seq<[u32; 3]>,
    kept: Seq<ProjectedPixel>,
    close: spec_fn([u32; 3], [u32; 3]) -> bool,
) -> bool {
    &&& forall|i: int, k: int|
        0 <= i < kept.len() && 0 <= k < means.len() ==> !close(#[trigger] kept[i].mean, #[trigger] means[k])
    &&& forall|i: int, j: int|
        0 <= j < i < kept.len() ==> !close(#[trigger] kept[i].mean, #[trigger] kept[j].mean)
}

proof fn lemma_occupied_push(taken: Set<Cell>, points: Seq<ProjectedPixel>, p: ProjectedPixel)
    ensures
        occupied_with(taken, points.push(p)) == occupied_with(taken, points).insert(p.cell),
{
    let all = points.push(p);
    assert forall|c: Cell|
        occupied_with(taken, all).contains(c) <==> occupied_with(taken, points).insert(
            p.cell,
        ).contains(c) by {
        if occupied_with(taken, points).contains(c) && !taken.contains(c) {
            let i = choose|i: int| 0 <= i < points.len() && (#[trigger] points[i]).cell == c;
            assert(all[i].cell == c);
        }
        if c == p.cell {
            assert(all[points.len() as int].cell == c);
        }
        if occupied_with(taken, all).contains(c) && !taken.contains(c) {
            let i = choose|i: int| 0 <= i < all.len() && (#[trigger] all[i]).cell == c;
            if i < points.len() {
                assert(points[i].cell == c);
            }
        }
    }
    assert(occupied_with(taken, all) =~= occupied_with(taken, points).insert(p.cell));
}

proof fn lemma_with_points_push(grid: GridState, points: Seq<ProjectedPixel>, p: ProjectedPixel)
    ensures
        with_points(grid, points.push(p)) == (GridState {
            cells: with_points(grid, points).cells.insert(p.cell),
            means: with_points(grid, points).means.push(p.mean),
        }),
{
    lemma_occupied_push(grid.cells, points, p);
    assert(with_points(grid, points.push(p)) =~= (GridState {
        cells: with_points(grid, points).cells.insert(p.cell),
        means: with_points(grid, points).means.push(p.mean),
    }));
}

/// A mean that is too near stays too near when Gaussians are added.
proof fn lemma_stays_crowded(
    means: Seq<[u32; 3]>,
    more: Seq<[u32; 3]>,
    mean: [u32; 3],
    close: spec_fn([u32; 3], [u32; 3]) -> bool,
)
    requires
        crowded(means, mean, close),
    ensures
        crowded(means + more, mean, close),
{
    let k = choose|k: int| 0 <= k < means.len() && close(mean, #[trigger] means[k]);
    assert((means + more)[k] == means[k]);
}

/// Points are added with distance: none is too near to a Gaussian that was there
/// before it, be it an old one or one of the points.
pub proof fn lemma_points_keep_their_distance(
    grid: GridState,
    points: Seq<ProjectedPixel>,
    close: spec_fn([u32; 3], [u32; 3]) -> bool,
)
    ensures
        keeps_distance(grid.means, placed(grid, points, close), close),
    decreases points.len(),
{
    if points.len() > 0 {
        let front = points.drop_last();
        lemma_points_keep_their_distance(grid, front, close);
        let before = placed(grid, front, close);
        let p = points.last();
        let kept = placed(grid, points, close);
        let means = with_points(grid, before).means;
        assert forall|i: int, k: int| 0 <= i < kept.len() && 0 <= k < grid.means.len() implies !close(
            #[trigger] kept[i].mean,
            #[trigger] grid.means[k],
        ) by {
            if i < before.len() {
                assert(kept[i] == before[i]);
            } else {
                assert(means[k] == grid.means[k]);
            }
        }
        assert forall|i: int, j: int| 0 <= j < i < kept.len() implies !close(
            #[trigger] kept[i].mean,
            #[trigger] kept[j].mean,
        ) by {
            if i < before.len() {
                assert(kept[i] == before[i] && kept[j] == before[j]);
            } else {
                assert(means[grid.means.len() + j] == before[j].mean);
            }
        }
    }
}

/// Adding points leaves no two of them in one cell and none in a cell that was
/// occupied before. A point is left out only if, by the end, its cell is taken
/// or a mean is too near to it; those that were added take their own cell.
pub proof fn lemma_one_point_per_cell(
    grid: GridState,
    points: Seq<ProjectedPixel>,
    close: spec_fn([u32; 3], [u32; 3]) -> bool,
)
    ensures
        ({
            let kept = placed(grid, points, close);
            &&& kept.len() <= points.len()
            &&& forall|i: int| 0 <= i < kept.len() ==> !grid.cells.contains((#[trigger] kept[i]).cell)
            &&& forall|i: int, j: int|
                0 <= i < j < kept.len() ==> (#[trigger] kept[i]).cell != (#[trigger] kept[j]).cell
            &&& forall|i: int|
                0 <= i < kept.len() ==> points.contains(#[trigger] kept[i])
            &&& forall|i: int|
                0 <= i < points.len() ==> !admits(with_points(grid, kept), #[trigger] points[i], close)
        }),
    decreases points.len(),
{
    if points.len() > 0 {
        let front = points.drop_last();
        let p = points.last();
        lemma_one_point_per_cell(grid, front, close);
        let before = placed(grid, front, close);
        let kept = placed(grid, points, close);
        lemma_with_points_push(grid, before, p);
        assert forall|i: int| 0 <= i < kept.len() implies points.contains(#[trigger] kept[i]) by {
            if i < before.len() {
                assert(front.contains(before[i]));
                let k = front.index_of(before[i]);
                assert(points[k] == before[i]);
            } else {
                assert(points[points.len() - 1] == p);
            }
        }
        assert forall|i: int| 0 <= i < points.len() implies !admits(
            with_points(grid, kept),
            #[trigger] points[i],
            close,
        ) by {
            let now = with_points(grid, before);
            if i < front.len() {
                assert(front[i] == points[i]);
                assert(!admits(now, front[i], close));
                if kept.len() > before.len() && crowded(now.means, points[i].mean, close) {
                    lemma_stays_crowded(now.means, seq![p.mean], points[i].mean, close);
                    assert(now.means + seq![p.mean] =~= with_points(grid, kept).means);
                }
            }
        }
        assert forall|i: int, j: int| 0 <= i < j < kept.len() implies (#[trigger] kept[i]).cell
            != (#[trigger] kept[j]).cell by {
            if j == before.len() {
                assert(before[i].cell != p.cell);
            }
        }
    }
}

/// Adding the same points a second time adds nothing.
pub proof fn lemma_adding_again_adds_nothing(
    grid: GridState,
    points: Seq<ProjectedPixel>,
    close: spec_fn([u32; 3], [u32; 3]) -> bool,
)
    ensures
        placed(with_points(grid, placed(grid, points, close)), points, close).len() == 0,
{
    lemma_one_point_per_cell(grid, points, close);
    lemma_none_admitted(with_points(grid, placed(grid, points, close)), points, close);
}

proof fn lemma_none_admitted(
    grid: GridState,
    points: Seq<ProjectedPixel>,
    close: spec_fn([u32; 3], [u32; 3]) -> bool,
)
    requires
        forall|i: int| 0 <= i < points.len() ==> !admits(grid, #[trigger] points[i], close),
    ensures
        placed(grid, points, close).len() == 0,
    decreases points.len(),
{
    if points.len() > 0 {
        let front = points.drop_last();
        assert forall|i: int| 0 <= i < front.len() implies !admits(grid, #[trigger] front[i], close) by {
            assert(points[i] == front[i]);
        }
        lemma_none_admitted(grid, front, close);
        let kept = placed(grid, front, close);
        assert(kept =~= Seq::empty());
        assert(with_points(grid, kept) =~= grid);
        assert(!admits(grid, points[points.len() - 1], close));
    }
}

/// Whether a point could be added to the grid as it is.
pub open spec fn admitted(
    grid: GridState,
    close: spec_fn([u32; 3], [u32; 3]) -> bool,
) -> spec_fn(ProjectedPixel) -> bool {
    |p: ProjectedPixel| admits(grid, p, close)
}

/// Dropping the points that the grid does not admit beforehand changes nothing.
pub proof fn lemma_prefilter_is_harmless(
    grid: GridState,
    points: Seq<ProjectedPixel>,
    close: spec_fn([u32; 3], [u32; 3]) -> bool,
)
    ensures
        placed(grid, points.filter(admitted(grid, close)), close) == placed(grid, points, close),
    decreases points.len(),
{
    reveal(Seq::filter);
    let pred = admitted(grid, close);
    if points.len() > 0 {
        let front = points.drop_last();
        let p = points.last();
        lemma_prefilter_is_harmless(grid, front, close);
        let filtered_front = front.filter(pred);
        if pred(p) {
            assert(points.filter(pred) == filtered_front.push(p));
            assert(filtered_front.push(p).drop_last() =~= filtered_front);
        } else {
            let kept = placed(grid, front, close);
            if crowded(grid.means, p.mean, close) {
                lemma_stays_crowded(
                    grid.means,
                    kept.map_values(|q: ProjectedPixel| q.mean),
                    p.mean,
                    close,
                );
            }
            assert(!admits(with_points(grid, kept), p, close));
        }
    } else {
        assert(points.filter(pred) =~= points);
    }
}

/// Adds each point whose cell is still free and to which no mean is too near,
/// and records it in the grid.
pub fn claim_free_cells<N: Fn([u32; 3], [u32; 3]) -> bool>(
    grid: &mut OccupancyGrid,
    points: &Vec<ProjectedPixel>,
    near: &N,
) -> (kept: Vec<ProjectedPixel>)
    requires
        forall|a: [u32; 3], b: [u32; 3]| #[trigger] call_requires(*near, (a, b)),
    ensures
        final(grid)@ == with_points(old(grid)@, kept@),
        kept@.len() <= points@.len(),
        forall|k: int| 0 <= k < kept@.len() ==> points@.contains(#[trigger] kept@[k]),
        forall|close: spec_fn([u32; 3], [u32; 3]) -> bool| #[trigger]
            computes_near(*near, close) ==> kept@ == placed(old(grid)@, points@, close),
{
    let mut kept: Vec<ProjectedPixel> = Vec::new();
    let n: usize = points.len();
    let ghost start = grid@;
    assert(with_points(start, Seq::empty()) =~= start);
    for i in 0..n
        invariant
            n == points@.len(),
            kept@.len() <= i,
            forall|k: int| 0 <= k < kept@.len() ==> points@.contains(#[trigger] kept@[k]),
            forall|a: [u32; 3], b: [u32; 3]| #[trigger] call_requires(*near, (a, b)),
            forall|close: spec_fn([u32; 3], [u32; 3]) -> bool| #[trigger]
                computes_near(*near, close) ==> kept@ == placed(start, points@.take(i as int), close),
            grid@ == with_points(start, kept@),
    {
        let p = points[i];
        let ghost before = kept@;
        proof {
            assert(points@.take(i + 1).drop_last() =~= points@.take(i as int));
            lemma_with_points_push(start, before, p);
        }
        if grid.is_free(p.cell) && !grid.is_crowded(p.mean, near) {
            grid.insert(Occupant { cell: p.cell, mean: p.mean });
            kept.push(p);
            assert(points@.contains(p));
        }
    }
    assert(points@.take(n as int) =~= points@);
    kept
}

/// The means of the points, three numbers each.
pub open spec fn packed_means(points: Seq<ProjectedPixel>) -> Seq<u32> {
    Seq::new(3 * points.len(), |k: int| points[k / 3].mean[k % 3])
}

/// The colour coefficient of each point, once per colour channel.
pub open spec fn packed_colors(points: Seq<ProjectedPixel>) -> Seq<u32> {
    Seq::new(3 * points.len(), |k: int| points[k / 3].color)
}

/// The scale of each point, once per axis.
pub open spec fn packed_log_scales(points: Seq<ProjectedPixel>) -> Seq<u32> {
    Seq::new(3 * points.len(), |k: int| points[k / 3].log_scale)
}

/// The arrays from which new Gaussians are made. Without scales the Gaussians
/// get theirs from the distances to their neighbours.
#[derive(Debug, PartialEq, Eq)]
pub struct SplatArrays {
    pub means: Vec<u32>,
    pub sh_coeffs: Vec<u32>,
    pub log_scales: Option<Vec<u32>>,
}

impl SplatArrays {
    /// Whether the arrays describe the points, in their order, with scales or
    /// without.
    pub open spec fn describes(self, points: Seq<ProjectedPixel>, with_scales: bool) -> bool {
        &&& self.means@ == packed_means(points)
        &&& self.sh_coeffs@ == packed_colors(points)
        &&& self.log_scales.is_some() == with_scales
        &&& with_scales ==> self.log_scales->0@ == packed_log_scales(points)
    }
}

/// Packs points into the arrays from which Gaussians are made.
pub fn pack_points(points: &Vec<ProjectedPixel>, with_scales: bool) -> (arrays: SplatArrays)
    ensures
        arrays.describes(points@, with_scales),
{
    let mut means: Vec<u32> = Vec::new();
    let mut sh_coeffs: Vec<u32> = Vec::new();
    let mut log_scales: Vec<u32> = Vec::new();
    let n: usize = points.len();
    for i in 0..n
        invariant
            n == points@.len(),
            means@ == packed_means(points@.take(i as int)),
            sh_coeffs@ == packed_colors(points@.take(i as int)),
            log_scales@ == packed_log_scales(points@.take(i as int)),
    {
        let p = points[i];
        means.push(p.mean[0]);
        means.push(p.mean[1]);
        means.push(p.mean[2]);
        sh_coeffs.push(p.color);
        sh_coeffs.push(p.color);
        sh_coeffs.push(p.color);
        log_scales.push(p.log_scale);
        log_scales.push(p.log_scale);
        log_scales.push(p.log_scale);
        proof {
            let before = points@.take(i as int);
            let after = points@.take(i + 1);
            assert(means@ =~= packed_means(after));
            assert(sh_coeffs@ =~= packed_colors(after));
            assert(log_scales@ =~= packed_log_scales(after));
        }
    }
    assert(points@.take(n as int) =~= points@);
    SplatArrays {
        means,
        sh_coeffs,
        log_scales: if with_scales {
            Some(log_scales)
        } else {
            None
        },
    }
}

/// Packing loses nothing: the mean, colour and scale of the `i`-th point can
/// be read back from its place in the arrays.
pub proof fn lemma_packing_can_be_read_back(points: Seq<ProjectedPixel>, i: int, axis: int)
    requires
        0 <= i < points.len(),
        0 <= axis < 3,
    ensures
        packed_means(points)[3 * i + axis] == points[i].mean[axis],
        packed_colors(points)[3 * i + axis] == points[i].color,
        packed_log_scales(points)[3 * i + axis] == points[i].log_scale,
        packed_means(points).len() / 3 == points.len(),
{
}

/// The Gaussian that a pixel would become: the grid cell in which the mean
/// lies, and the bit patterns of mean, colour coefficient and scale.
#[derive(Clone, Copy, Debug, PartialEq, Eq)]
pub struct Projection {
    pub cell: (i32, i32, i32),
    pub mean: [u32; 3],
    pub color: u32,
    pub log_scale: u32,
}

/// The points that pixels become.
pub open spec fn projected(pixels: Seq<usize>, projection: spec_fn(usize) -> Projection) -> Seq<ProjectedPixel> {
    pixels.map_values(
        |idx: usize|
            ProjectedPixel {
                idx,
                cell: projection(idx).cell,
                mean: projection(idx).mean,
                color: projection(idx).color,
                log_scale: projection(idx).log_scale,
            },
    )
}

/// Whether the function always gives what `projection` says.
pub open spec fn computes_projection<F: Fn(usize) -> Projection>(f: F, projection: spec_fn(usize) -> Projection) -> bool {
    forall|idx: usize, out: Projection| call_ensures(f, (idx,), out) ==> out == projection(idx)
}

/// Projects pixels into space.
pub fn project_pixels<F: Fn(usize) -> Projection>(pixels: &Vec<usize>, f: &F) -> (points: Vec<ProjectedPixel>)
    requires
        forall|k: int| 0 <= k < pixels@.len() ==> call_requires(f, (#[trigger] pixels@[k],)),
    ensures
        pixels_of(points@) == pixels@,
        forall|projection: spec_fn(usize) -> Projection| #[trigger]
            computes_projection(*f, projection) ==> points@ == projected(pixels@, projection),
{
    let n: usize = pixels.len();
    let mut points: Vec<ProjectedPixel> = Vec::new();
    for k in 0..n
        invariant
            n == pixels@.len(),
            points@.len() == k,
            forall|k: int| 0 <= k < pixels@.len() ==> call_requires(f, (#[trigger] pixels@[k],)),
            forall|j: int| 0 <= j < k ==> (#[trigger] points@[j]).idx == pixels@[j],
            forall|projection: spec_fn(usize) -> Projection| #[trigger]
                computes_projection(*f, projection) ==> points@ == projected(pixels@, projection).take(k as int),
    {
        let idx: usize = pixels[k];
        let at = f(idx);
        points.push(
            ProjectedPixel { idx, cell: at.cell, mean: at.mean, color: at.color, log_scale: at.log_scale },
        );
        proof {
            assert forall|projection: spec_fn(usize) -> Projection| #[trigger]
                computes_projection(*f, projection) implies points@ == projected(pixels@, projection).take(
                k + 1,
            ) by {
                let all = projected(pixels@, projection);
                assert(at == projection(idx));
                assert(all.take(k + 1) =~= all.take(k as int).push(all[k as int]));
            }
        }
    }
    proof {
        assert(pixels_of(points@) =~= pixels@);
        assert forall|projection: spec_fn(usize) -> Projection| #[trigger]
            computes_projection(*f, projection) implies points@ == projected(pixels@, projection) by {
            let all = projected(pixels@, projection);
            assert(all.take(n as int) =~= all);
        }
    }
    points
}

/// The pixels of the points.
pub fn list_pixels(points: &Vec<ProjectedPixel>) -> (pixels: Vec<usize>)
    ensures
        pixels@ == pixels_of(points@),
{
    let n: usize = points.len();
    let mut pixels: Vec<usize> = Vec::new();
    for k in 0..n
        invariant
            n == points@.len(),
            pixels@ == pixels_of(points@).take(k as int),
    {
        pixels.push(points[k].idx);
        assert(pixels_of(points@).take(k + 1) =~= pixels_of(points@).take(k as int).push(points@[k as int].idx));
    }
    assert(pixels_of(points@).take(n as int) =~= pixels_of(points@));
    pixels
}

/// Adds the points of the pixels that can be added when it is their turn,
/// records them in the grid, and marks the pixels as having a Gaussian.
pub fn add_in_free_cells<F: Fn(usize) -> Projection, N: Fn([u32; 3], [u32; 3]) -> bool>(
    grid: &mut OccupancyGrid,
    pixels: &Vec<usize>,
    added: &mut Vec<bool>,
    f: &F,
    near: &N,
) -> (kept: Vec<ProjectedPixel>)
    requires
        forall|k: int| 0 <= k < pixels@.len() ==> (#[trigger] pixels@[k]) < old(added)@.len(),
        forall|k: int| 0 <= k < pixels@.len() ==> call_requires(f, (#[trigger] pixels@[k],)),
        forall|a: [u32; 3], b: [u32; 3]| #[trigger] call_requires(*near, (a, b)),
    ensures
        kept@.len() <= pixels@.len(),
        final(added)@ == marked(old(added)@, pixels_of(kept@)),
        final(grid)@ == with_points(old(grid)@, kept@),
        forall|
            projection: spec_fn(usize) -> Projection,
            close: spec_fn([u32; 3], [u32; 3]) -> bool,
        |
            #![trigger computes_projection(*f, projection), computes_near(*near, close)]
            computes_projection(*f, projection) && computes_near(*near, close) ==> kept@ == placed(
                old(grid)@,
                projected(pixels@, projection),
                close,
            ),
{
    let points = project_pixels(pixels, f);
    let kept = claim_free_cells(grid, &points, near);
    let kept_pixels = list_pixels(&kept);
    proof {
        assert(points@.len() == pixels@.len()) by {
            assert(pixels_of(points@).len() == points@.len());
        }
        assert forall|k: int| 0 <= k < kept_pixels@.len() implies (#[trigger] kept_pixels@[k]) < added@.len() by {
            assert(points@.contains(kept@[k]));
            let j = points@.index_of(kept@[k]);
            assert(pixels_of(points@)[j] == pixels@[j]);
        }
    }
    mark_added(added, &kept_pixels);
    kept
}

/// Which pixels have a Gaussian once the given ones have got theirs.
pub open spec fn marked(added: Seq<bool>, pixels: Seq<usize>) -> Seq<bool> {
    Seq::new(added.len(), |i: int| added[i] || pixels.contains(i as usize))
}

/// Marks pixels as having a Gaussian.
pub fn mark_added(added: &mut Vec<bool>, pixels: &Vec<usize>)
    requires
        forall|k: int| 0 <= k < pixels@.len() ==> #[trigger] pixels@[k] < old(added)@.len(),
    ensures
        final(added)@ == marked(old(added)@, pixels@),
{
    let n: usize = pixels.len();
    let total: usize = added.len();
    let ghost start = added@;
    assert(added@ =~= marked(start, pixels@.take(0)));
    for k in 0..n
        invariant
            n == pixels@.len(),
            total == start.len(),
            forall|k: int| 0 <= k < pixels@.len() ==> #[trigger] pixels@[k] < start.len(),
            added@ == marked(start, pixels@.take(k as int)),
    {
        let idx = pixels[k];
        added.set(idx, true);
        proof {
            let before = pixels@.take(k as int);
            let after = pixels@.take(k + 1);
            assert forall|i: int| 0 <= i < start.len() implies #[trigger] added@[i] == marked(
                start,
                after,
            )[i] by {
                if before.contains(i as usize) {
                    let j = before.index_of(i as usize);
                    assert(after[j] == i as usize);
                }
                if after.contains(i as usize) {
                    let j = after.index_of(i as usize);
                    if j < k {
                        assert(before[j] == i as usize);
                    }
                }
                assert(after[k as int] == idx);
            }
            assert(added@ =~= marked(start, after));
        }
    }
    assert(pixels@.take(n as int) =~= pixels@);
}

/// The pixels of the points, in their order.
pub open spec fn pixels_of(points: Seq<ProjectedPixel>) -> Seq<usize> {
    points.map_values(|p: ProjectedPixel| p.idx)
}

/// No pixel has a Gaussian yet.
pub fn unmarked(n: usize) -> (added: Vec<bool>)
    ensures
        added@ == Seq::new(n as nat, |i: int| false),
{
    let mut added: Vec<bool> = Vec::new();
    for i in 0..n
        invariant
            added@ == Seq::new(i as nat, |k: int| false),
    {
        added.push(false);
        assert(added@ =~= Seq::new((i + 1) as nat, |k: int| false));
    }
    added
}

/// A number, `n` times.
pub fn repeated(value: u32, n: usize) -> (values: Vec<u32>)
    ensures
        values@ == Seq::new(n as nat, |i: int| value),
{
    let mut values: Vec<u32> = Vec::new();
    for i in 0..n
        invariant
            values@ == Seq::new(i as nat, |k: int| value),
    {
        values.push(value);
        assert(values@ =~= Seq::new((i + 1) as nat, |k: int| value));
    }
    values
}

/// A grid of Gaussians holds the cell and the mean of every one of them, and
/// nothing else.
pub proof fn lemma_grid_holds_every_gaussian(occupants: Seq<Occupant>)
    ensures
        grid_of(occupants).means.len() == occupants.len(),
        forall|i: int| 0 <= i < occupants.len() ==> #[trigger] grid_of(occupants).means[i] == occupants[i].mean,
        forall|i: int| 0 <= i < occupants.len() ==> grid_of(occupants).cells.contains((#[trigger] occupants[i]).cell),
        forall|c: Cell| #[trigger]
            grid_of(occupants).cells.contains(c) ==> exists|i: int|
                0 <= i < occupants.len() && (#[trigger] occupants[i]).cell == c,
{
    let cells = occupants.map_values(|o: Occupant| o.cell);
    assert forall|i: int| 0 <= i < occupants.len() implies grid_of(occupants).cells.contains(
        (#[trigger] occupants[i]).cell,
    ) by {
        assert(cells[i] == occupants[i].cell);
        assert(cells.contains(occupants[i].cell));
    }
    assert forall|c: Cell| #[trigger] grid_of(occupants).cells.contains(c) implies exists|i: int|
        0 <= i < occupants.len() && (#[trigger] occupants[i]).cell == c by {
        let i = choose|i: int| 0 <= i < cells.len() && cells[i] == c;
        assert(occupants[i].cell == c);
    }
}

/// Points are considered one after the other. The next one is added exactly if
/// no Gaussian and no point before it lies in its cell and none of their means
/// is too near; what was added before stays.
pub proof fn lemma_free_points_are_added(
    grid: GridState,
    points: Seq<ProjectedPixel>,
    next: ProjectedPixel,
    close: spec_fn([u32; 3], [u32; 3]) -> bool,
)
    ensures
        placed(grid, Seq::empty(), close) == Seq::<ProjectedPixel>::empty(),
        ({
            let kept = placed(grid, points, close);
            let free = {
                &&& !grid.cells.contains(next.cell)
                &&& forall|i: int| 0 <= i < kept.len() ==> (#[trigger] kept[i]).cell != next.cell
                &&& forall|k: int| 0 <= k < grid.means.len() ==> !close(next.mean, #[trigger] grid.means[k])
                &&& forall|i: int| 0 <= i < kept.len() ==> !close(next.mean, (#[trigger] kept[i]).mean)
            };
            placed(grid, points.push(next), close) == (if free {
                kept + seq![next]
            } else {
                kept
            })
        }),
{
    assert(points.push(next).drop_last() =~= points);
    let kept = placed(grid, points, close);
    let now = with_points(grid, kept);
    assert(kept.push(next) =~= kept + seq![next]);
    let free = {
        &&& !grid.cells.contains(next.cell)
        &&& forall|i: int| 0 <= i < kept.len() ==> (#[trigger] kept[i]).cell != next.cell
        &&& forall|k: int| 0 <= k < grid.means.len() ==> !close(next.mean, #[trigger] grid.means[k])
        &&& forall|i: int| 0 <= i < kept.len() ==> !close(next.mean, (#[trigger] kept[i]).mean)
    };
    let n = grid.means.len() as int;
    if free {
        assert forall|k: int| 0 <= k < now.means.len() implies !close(next.mean, #[trigger] now.means[k]) by {
            if k < n {
                assert(now.means[k] == grid.means[k]);
            } else {
                assert(now.means[k] == kept[k - n].mean);
            }
        }
        assert(!crowded(now.means, next.mean, close));
        assert(admits(now, next, close));
    } else {
        if admits(now, next, close) {
            assert forall|i: int| 0 <= i < kept.len() implies (#[trigger] kept[i]).cell != next.cell by {
                assert(now.cells.contains(kept[i].cell));
            }
            assert forall|k: int| 0 <= k < n implies !close(next.mean, #[trigger] grid.means[k]) by {
                assert(now.means[k] == grid.means[k]);
            }
            assert forall|i: int| 0 <= i < kept.len() implies !close(next.mean, (#[trigger] kept[i]).mean) by {
                assert(now.means[n + i] == kept[i].mean);
            }
        }
    }
}

/// What a grid holds once points have been added: their cells and means, behind
/// those that it held.
pub proof fn lemma_points_are_recorded(grid: GridState, points: Seq<ProjectedPixel>)
    ensures
        with_points(grid, points).means.len() == grid.means.len() + points.len(),
        forall|k: int| 0 <= k < grid.means.len() ==> #[trigger] with_points(grid, points).means[k] == grid.means[k],
        forall|i: int|
            0 <= i < points.len() ==> with_points(grid, points).means[grid.means.len() + i] == (#[trigger] points[i]).mean,
        forall|c: Cell| #[trigger]
            with_points(grid, points).cells.contains(c) <==> grid.cells.contains(c) || exists|i: int|
                0 <= i < points.len() && (#[trigger] points[i]).cell == c,
{
}

/// Every pixel becomes the point that belongs to it, in the same order.
pub proof fn lemma_pixels_become_their_points(pixels: Seq<usize>, projection: spec_fn(usize) -> Projection, k: int)
    requires
        0 <= k < pixels.len(),
    ensures
        projected(pixels, projection).len() == pixels.len(),
        ({
            let point = projected(pixels, projection)[k];
            let at = projection(pixels[k]);
            &&& point.idx == pixels[k]
            &&& point.cell == at.cell
            &&& point.mean == at.mean
            &&& point.color == at.color
            &&& point.log_scale == at.log_scale
        }),
        pixels_of(projected(pixels, projection)) == pixels,
{
    assert(pixels_of(projected(pixels, projection)) =~= pixels);
}

/// A pixel is marked exactly if it was before or is one of those that got a
/// Gaussian.
pub proof fn lemma_only_new_pixels_are_marked(added: Seq<bool>, pixels: Seq<usize>, i: usize)
    requires
        i < added.len(),
    ensures
        marked(added, pixels).len() == added.len(),
        marked(added, pixels)[i as int] <==> added[i as int] || exists|k: int|
            0 <= k < pixels.len() && #[trigger] pixels[k] == i,
{
}

/// The arrays have three numbers for each point, and scales only if asked for.
pub proof fn lemma_arrays_describe_points(arrays: SplatArrays, points: Seq<ProjectedPixel>, with_scales: bool)
    requires
        arrays.describes(points, with_scales),
    ensures
        arrays.means@.len() == 3 * points.len(),
        arrays.sh_coeffs@.len() == 3 * points.len(),
        arrays.log_scales.is_some() == with_scales,
        with_scales ==> arrays.log_scales->0@.len() == 3 * points.len(),
        forall|i: int, axis: int|
            #![trigger points[i].mean[axis]]
            0 <= i < points.len() && 0 <= axis < 3 ==> {
                &&& arrays.means@[3 * i + axis] == points[i].mean[axis]
                &&& arrays.sh_coeffs@[3 * i + axis] == points[i].color
                &&& with_scales ==> arrays.log_scales->0@[3 * i + axis] == points[i].log_scale
            },
{
    assert forall|i: int, axis: int|
        #![trigger points[i].mean[axis]]
        0 <= i < points.len() && 0 <= axis < 3 implies {
        &&& arrays.means@[3 * i + axis] == points[i].mean[axis]
        &&& arrays.sh_coeffs@[3 * i + axis] == points[i].color
        &&& with_scales ==> arrays.log_scales->0@[3 * i + axis] == points[i].log_scale
    } by {
        lemma_packing_can_be_read_back(points, i, axis);
    }
}

/// If no Gaussian lies in the cell of the first point and none is too near to
/// it, it is the first to be added.
pub proof fn lemma_first_free_point(
    grid: GridState,
    points: Seq<ProjectedPixel>,
    close: spec_fn([u32; 3], [u32; 3]) -> bool,
)
    requires
        points.len() > 0,
    ensures
        !grid.cells.contains(points[0].cell) && (forall|k: int|
            0 <= k < grid.means.len() ==> !close(points[0].mean, #[trigger] grid.means[k])) ==> placed(
            grid,
            points,
            close,
        ).len() > 0 && placed(grid, points, close)[0] == points[0],
    decreases points.len(),
{
    let front = points.drop_last();
    lemma_free_points_are_added(grid, front, points.last(), close);
    assert(front.push(points.last()) =~= points);
    if front.len() > 0 {
        lemma_first_free_point(grid, front, close);
    } else {
        assert(front =~= Seq::empty());
        assert(points[0] == points.last());
    }
}

/// A function that always gives what `close` says, and no other, is one that
/// computes it.
pub proof fn lemma_computes_near<N: Fn([u32; 3], [u32; 3]) -> bool>(
    near: N,
    close: spec_fn([u32; 3], [u32; 3]) -> bool,
)
    ensures
        computes_near(near, close) <==> forall|a: [u32; 3], b: [u32; 3], out: bool| #[trigger]
            call_ensures(near, (a, b), out) ==> out == close(a, b),
{
}

/// A function that always gives what `projection` says, and no other, is one that
/// computes it.
pub proof fn lemma_computes_projection<F: Fn(usize) -> Projection>(
    f: F,
    projection: spec_fn(usize) -> Projection,
)
    ensures
        computes_projection(f, projection) <==> forall|idx: usize, out: Projection| #[trigger]
            call_ensures(f, (idx,), out) ==> out == projection(idx),
{
}

} // verus!
