//! Terrain generation: the cells kept free of terrain, irregular cluster
//! growth, path-validated blocking clusters, and the terrain map.

use rand::rngs::SmallRng;
use vstd::prelude::*;

use crate::cellset::CellSet;
use crate::geom::{cell_in_grid, in_bounds, Cell, GridConfig, GridPos};
use crate::nav::{
    grid_blocked, grid_build, grid_dims, grid_needs_build, grid_set_nav, layout_valid,
    nav_cost_ok, nav_side_fits, paths_valid, triple, validate_paths, NavGrid, NavKind, MOVE_COST,
};
use crate::pile::{EdgeCells, PileState};
use crate::random::{random_i32_in, random_index_below, random_u32_inclusive};

verus! {

/// Half-width of the square around the pile center kept free of terrain.
pub const PILE_BUFFER_RADIUS: i32 = 3;

/// Smallest terrain cluster size drawn.
pub const TERRAIN_MIN_CLUSTER: u32 = 5;

/// Largest terrain cluster size drawn.
pub const TERRAIN_MAX_CLUSTER: u32 = 25;

/// Attempts made to find a free seed cell before giving up.
pub const SEED_ATTEMPTS: u32 = 100;

/// Kind of terrain on a cell.
#[derive(Clone, Copy, Debug, PartialEq, Eq, Hash, Structural)]
pub enum Terrain {
    /// Impassable debris.
    Rubble,
    /// Slows enemies.
    Puddle,
    /// Damages enemies over time.
    Radioactive,
}

// ---------------------------------------------------------------------------
// Exclusion set
// ---------------------------------------------------------------------------

/// The cell of a grid position.
pub open spec fn as_cell(p: GridPos) -> Cell {
    Cell { x: p.x as i32, y: p.y as i32 }
}

/// `a` is one of the four orthogonal neighbours of `b`.
pub open spec fn adjacent4(a: Cell, b: Cell) -> bool {
    ||| (a.x == b.x + 1 && a.y == b.y)
    ||| (a.x == b.x - 1 && a.y == b.y)
    ||| (a.x == b.x && a.y == b.y + 1)
    ||| (a.x == b.x && a.y == b.y - 1)
}

/// `c` is the edge cell `e`, or an in-grid orthogonal neighbour of it.
pub open spec fn guards_edge(c: Cell, e: GridPos, width: u32, height: u32) -> bool {
    c == as_cell(e) || (cell_in_grid(c, width, height) && adjacent4(c, as_cell(e)))
}

/// `c` guards one of the first `k` edge cells.
pub open spec fn guards_some_edge(c: Cell, edges: Seq<GridPos>, k: int, width: u32, height: u32) -> bool {
    exists|i: int| 0 <= i < k && #[trigger] guards_edge(c, edges[i], width, height)
}

/// `c` is an in-grid cell of the square of half-width `PILE_BUFFER_RADIUS`
/// around the pile center.
pub open spec fn in_pile_buffer(c: Cell, center: GridPos, width: u32, height: u32) -> bool {
    &&& cell_in_grid(c, width, height)
    &&& (center.x as i32) - PILE_BUFFER_RADIUS <= c.x <= (center.x as i32) + PILE_BUFFER_RADIUS
    &&& (center.y as i32) - PILE_BUFFER_RADIUS <= c.y <= (center.y as i32) + PILE_BUFFER_RADIUS
}

/// Cells that must never hold terrain: the edge cells with their in-grid
/// neighbours, and the buffer square around the pile center.
pub open spec fn must_stay_clear(c: Cell, config: GridConfig, center: GridPos, edges: Seq<GridPos>) -> bool {
    guards_some_edge(c, edges, edges.len() as int, config.width, config.height) || in_pile_buffer(
        c,
        center,
        config.width,
        config.height,
    )
}

/// The offsets the exclusion set adds stay within `i32`.
pub open spec fn exclusion_fits(center: GridPos, edges: Seq<GridPos>) -> bool {
    &&& i32::MIN + PILE_BUFFER_RADIUS <= (center.x as i32) <= i32::MAX - PILE_BUFFER_RADIUS
    &&& i32::MIN + PILE_BUFFER_RADIUS <= (center.y as i32) <= i32::MAX - PILE_BUFFER_RADIUS
    &&& forall|i: int|
        0 <= i < edges.len() ==> i32::MIN < ((#[trigger] edges[i]).x as i32) < i32::MAX && i32::MIN
            < (edges[i].y as i32) < i32::MAX
}

fn insert_if_in_bounds(set: &mut CellSet, c: Cell, config: &GridConfig)
    requires
        old(set).wf(),
    ensures
        final(set).wf(),
        final(set)@ == if cell_in_grid(c, config.width, config.height) {
            old(set)@.insert(c)
        } else {
            old(set)@
        },
{
    if in_bounds(c, config) {
        set.insert(c);
    }
}

/// Build the set of cells that must never hold terrain.
pub fn build_exclusion_set(config: &GridConfig, pile_state: &PileState, edge_cells: &EdgeCells) -> (excluded: CellSet)
    requires
        exclusion_fits(pile_state.center, edge_cells.0@),
    ensures
        excluded.wf(),
        forall|c: Cell| #[trigger]
            excluded@.contains(c) <==> must_stay_clear(c, *config, pile_state.center, edge_cells.0@),
{
    let edges = &edge_cells.0;
    let w = config.width;
    let h = config.height;
    let mut set = CellSet::new();
    let mut k: usize = 0;
    while k < edges.len()
        invariant
            k <= edges@.len(),
            exclusion_fits(pile_state.center, edges@),
            set.wf(),
            w == config.width,
            h == config.height,
            forall|c: Cell| #[trigger] set@.contains(c) <==> guards_some_edge(c, edges@, k as int, w, h),
        decreases edges@.len() - k,
    {
        let e = edges[k];
        assert(i32::MIN < (e.x as i32) < i32::MAX && i32::MIN < (e.y as i32) < i32::MAX);
        let ec = Cell { x: e.x as i32, y: e.y as i32 };
        let ghost before = set@;
        set.insert(ec);
        insert_if_in_bounds(&mut set, Cell { x: ec.x + 1, y: ec.y }, config);
        insert_if_in_bounds(&mut set, Cell { x: ec.x - 1, y: ec.y }, config);
        insert_if_in_bounds(&mut set, Cell { x: ec.x, y: ec.y + 1 }, config);
        insert_if_in_bounds(&mut set, Cell { x: ec.x, y: ec.y - 1 }, config);
        assert forall|c: Cell| #[trigger]
            set@.contains(c) <==> guards_some_edge(c, edges@, k + 1, w, h) by {
            if guards_edge(c, e, w, h) {
                assert(guards_edge(c, edges@[k as int], w, h));
            }
            if guards_some_edge(c, edges@, k + 1, w, h) {
                let i = choose|i: int| 0 <= i < k + 1 && #[trigger] guards_edge(c, edges@[i], w, h);
                if i < k {
                    assert(guards_some_edge(c, edges@, k as int, w, h));
                }
            }
            if guards_some_edge(c, edges@, k as int, w, h) {
                let i = choose|i: int| 0 <= i < k && #[trigger] guards_edge(c, edges@[i], w, h);
                assert(guards_edge(c, edges@[i], w, h));
            }
        }
        k = k + 1;
    }
    let cx: i32 = pile_state.center.x as i32;
    let cy: i32 = pile_state.center.y as i32;
    let mut dx: i32 = -PILE_BUFFER_RADIUS;
    while dx <= PILE_BUFFER_RADIUS
        invariant
            -PILE_BUFFER_RADIUS <= dx <= PILE_BUFFER_RADIUS + 1,
            cx == pile_state.center.x as i32,
            cy == pile_state.center.y as i32,
            exclusion_fits(pile_state.center, edges@),
            set.wf(),
            w == config.width,
            h == config.height,
            forall|c: Cell| #[trigger]
                set@.contains(c) <==> (guards_some_edge(c, edges@, edges@.len() as int, w, h) || (
                in_pile_buffer(c, pile_state.center, w, h) && c.x < cx + dx)),
        decreases PILE_BUFFER_RADIUS + 1 - dx,
    {
        let mut dy: i32 = -PILE_BUFFER_RADIUS;
        while dy <= PILE_BUFFER_RADIUS
            invariant
                -PILE_BUFFER_RADIUS <= dx <= PILE_BUFFER_RADIUS,
                -PILE_BUFFER_RADIUS <= dy <= PILE_BUFFER_RADIUS + 1,
                cx == pile_state.center.x as i32,
                cy == pile_state.center.y as i32,
                exclusion_fits(pile_state.center, edges@),
                set.wf(),
                w == config.width,
                h == config.height,
                forall|c: Cell| #[trigger]
                    set@.contains(c) <==> (guards_some_edge(c, edges@, edges@.len() as int, w, h) || (
                    in_pile_buffer(c, pile_state.center, w, h) && (c.x < cx + dx || (c.x == cx + dx
                        && c.y < cy + dy)))),
            decreases PILE_BUFFER_RADIUS + 1 - dy,
        {
            insert_if_in_bounds(&mut set, Cell { x: cx + dx, y: cy + dy }, config);
            dy = dy + 1;
        }
        dx = dx + 1;
    }
    set
}

/// When every edge cell lies in the grid, so does every excluded cell.
pub proof fn lemma_exclusion_in_grid(c: Cell, config: GridConfig, center: GridPos, edges: Seq<GridPos>)
    requires
        forall|i: int|
            0 <= i < edges.len() ==> cell_in_grid(as_cell(#[trigger] edges[i]), config.width, config.height),
        must_stay_clear(c, config, center, edges),
    ensures
        cell_in_grid(c, config.width, config.height),
{
    if guards_some_edge(c, edges, edges.len() as int, config.width, config.height) {
        let i = choose|i: int|
            0 <= i < edges.len() && #[trigger] guards_edge(c, edges[i], config.width, config.height);
        assert(cell_in_grid(as_cell(edges[i]), config.width, config.height));
    }
}

// ---------------------------------------------------------------------------
// Cluster growth
// ---------------------------------------------------------------------------

/// Pick a random grid cell that is not occupied, trying at most
/// `SEED_ATTEMPTS` times; `None` when every attempt hit an occupied cell
/// (always the case on a fully occupied grid).
pub fn pick_random_seed(config: &GridConfig, occupied: &CellSet, rng: &mut SmallRng) -> (r: Option<Cell>)
    requires
        1 <= config.width <= i32::MAX,
        1 <= config.height <= i32::MAX,
    ensures
        r matches Some(c) ==> cell_in_grid(c, config.width, config.height) && !occupied@.contains(c),
        (forall|c: Cell| cell_in_grid(c, config.width, config.height) ==> #[trigger] occupied@.contains(c))
            ==> r is None,
        (forall|c: Cell| cell_in_grid(c, config.width, config.height) ==> !#[trigger] occupied@.contains(c))
            ==> r is Some,
{
    let mut attempt: u32 = 0;
    while attempt < SEED_ATTEMPTS
        invariant
            1 <= config.width <= i32::MAX,
            1 <= config.height <= i32::MAX,
            (forall|c: Cell| cell_in_grid(c, config.width, config.height) ==> !#[trigger] occupied@.contains(c))
                ==> attempt == 0,
        decreases SEED_ATTEMPTS - attempt,
    {
        let x = random_i32_in(rng, 0, config.width as i32);
        let y = random_i32_in(rng, 0, config.height as i32);
        let cell = Cell { x, y };
        if !occupied.contains(&cell) {
            return Some(cell);
        }
        assert(cell_in_grid(cell, config.width, config.height) && occupied@.contains(cell));
        attempt = attempt + 1;
    }
    None
}

/// Decides whether a candidate cell joins a growing cluster. The chance
/// usually falls as the cluster nears its target size, so that cluster
/// borders come out irregular.
pub trait GrowthRoll {
    /// Whether the candidate joins a cluster that has `cluster_len` cells
    /// and aims for `target_size` cells.
    fn keep_candidate(&mut self, rng: &mut SmallRng, cluster_len: usize, target_size: u32) -> bool;
}

/// Keeps every candidate: clusters grow as compactly as their frontier
/// allows.
pub struct AlwaysGrow;

impl GrowthRoll for AlwaysGrow {
    fn keep_candidate(&mut self, rng: &mut SmallRng, cluster_len: usize, target_size: u32) -> (keep: bool)
        ensures
            keep,
            *final(rng) == *old(rng),
    {
        true
    }
}

/// `c` is an orthogonal neighbour of one of the first `n` cells.
pub open spec fn touches_prefix(c: Cell, cells: Seq<Cell>, n: int) -> bool {
    exists|j: int| 0 <= j < n && adjacent4(c, #[trigger] cells[j])
}

/// A grown cluster: it starts at `seed`, lists no cell twice, and every
/// later cell is a free in-grid cell next to an earlier one (so the cluster
/// is 4-connected).
pub open spec fn cluster_shape(cluster: Seq<Cell>, seed: Cell, occupied: Set<Cell>, config: GridConfig) -> bool {
    &&& cluster.len() >= 1
    &&& cluster[0] == seed
    &&& cluster.no_duplicates()
    &&& forall|i: int|
        1 <= i < cluster.len() ==> {
            &&& cell_in_grid(#[trigger] cluster[i], config.width, config.height)
            &&& !occupied.contains(cluster[i])
            &&& touches_prefix(cluster[i], cluster, i)
        }
}

/// Upper bound on a cluster's size: its target, but at least the seed.
pub open spec fn size_cap(target_size: u32) -> int {
    if target_size >= 1 {
        target_size as int
    } else {
        1
    }
}

/// Frontier cells are free in-grid cells next to some cell of the cluster.
pub open spec fn frontier_ok(frontier: Seq<Cell>, cluster: Seq<Cell>, occupied: Set<Cell>, config: GridConfig) -> bool {
    forall|i: int|
        0 <= i < frontier.len() ==> {
            &&& cell_in_grid(#[trigger] frontier[i], config.width, config.height)
            &&& !occupied.contains(frontier[i])
            &&& touches_prefix(frontier[i], cluster, cluster.len() as int)
        }
}

fn push_if_open(
    frontier: &mut Vec<Cell>,
    n: Cell,
    in_cluster: &CellSet,
    occupied: &CellSet,
    config: &GridConfig,
)
    ensures
        final(frontier)@ == if cell_in_grid(n, config.width, config.height) && !in_cluster@.contains(
            n,
        ) && !occupied@.contains(n) {
            old(frontier)@.push(n)
        } else {
            old(frontier)@
        },
{
    if in_bounds(n, config) && !in_cluster.contains(&n) && !occupied.contains(&n) {
        frontier.push(n);
    }
}

/// `n` as a one-cell list when it is a free in-grid cell outside the
/// cluster, else the empty list.
pub open spec fn if_open(n: Cell, in_cluster: Set<Cell>, occupied: Set<Cell>, config: GridConfig) -> Seq<Cell> {
    if cell_in_grid(n, config.width, config.height) && !in_cluster.contains(n) && !occupied.contains(n) {
        seq![n]
    } else {
        Seq::empty()
    }
}

/// The open neighbours of `cell`, in the order right, left, up, down.
pub open spec fn open_neighbour_seq(cell: Cell, in_cluster: Set<Cell>, occupied: Set<Cell>, config: GridConfig) -> Seq<
    Cell,
> {
    if_open(Cell { x: (cell.x + 1) as i32, y: cell.y }, in_cluster, occupied, config) + if_open(
        Cell { x: (cell.x - 1) as i32, y: cell.y },
        in_cluster,
        occupied,
        config,
    ) + if_open(Cell { x: cell.x, y: (cell.y + 1) as i32 }, in_cluster, occupied, config) + if_open(
        Cell { x: cell.x, y: (cell.y - 1) as i32 },
        in_cluster,
        occupied,
        config,
    )
}

/// Push onto the frontier each free in-grid neighbour of `cell` that is
/// not yet in the cluster, in the order right, left, up, down.
fn open_neighbours(
    frontier: &mut Vec<Cell>,
    cell: Cell,
    in_cluster: &CellSet,
    occupied: &CellSet,
    config: &GridConfig,
)
    requires
        i32::MIN < cell.x < i32::MAX,
        i32::MIN < cell.y < i32::MAX,
    ensures
        final(frontier)@ == old(frontier)@ + open_neighbour_seq(cell, in_cluster@, occupied@, *config),
        final(frontier)@.len() >= old(frontier)@.len(),
        final(frontier)@.take(old(frontier)@.len() as int) == old(frontier)@,
        forall|i: int|
            old(frontier)@.len() <= i < final(frontier)@.len() ==> {
                &&& cell_in_grid(#[trigger] final(frontier)@[i], config.width, config.height)
                &&& !occupied@.contains(final(frontier)@[i])
                &&& !in_cluster@.contains(final(frontier)@[i])
                &&& adjacent4(final(frontier)@[i], cell)
            },
{
    let ghost start = frontier@;
    let ghost (ic, oc, cf) = (in_cluster@, occupied@, *config);
    let right = Cell { x: cell.x + 1, y: cell.y };
    let left = Cell { x: cell.x - 1, y: cell.y };
    let up = Cell { x: cell.x, y: cell.y + 1 };
    let down = Cell { x: cell.x, y: cell.y - 1 };
    push_if_open(frontier, right, in_cluster, occupied, config);
    assert(frontier@ =~= start + if_open(right, ic, oc, cf));
    let ghost s1 = frontier@;
    push_if_open(frontier, left, in_cluster, occupied, config);
    assert(frontier@ =~= s1 + if_open(left, ic, oc, cf));
    let ghost s2 = frontier@;
    push_if_open(frontier, up, in_cluster, occupied, config);
    assert(frontier@ =~= s2 + if_open(up, ic, oc, cf));
    let ghost s3 = frontier@;
    push_if_open(frontier, down, in_cluster, occupied, config);
    assert(frontier@ =~= s3 + if_open(down, ic, oc, cf));
    assert(frontier@ =~= start + open_neighbour_seq(cell, ic, oc, cf));
    assert(frontier@.take(start.len() as int) =~= start);
}

/// One growth step on the frontier cell at `idx`: it leaves the frontier
/// (swapped with the last cell), and when it is free, not yet in the
/// cluster and `keep` holds (the roll's answer for it), it joins the
/// cluster and its open neighbours join the frontier. Returns whether it
/// joined.
pub fn grow_step(
    cluster: &mut Vec<Cell>,
    in_cluster: &mut CellSet,
    frontier: &mut Vec<Cell>,
    idx: usize,
    keep: bool,
    occupied: &CellSet,
    config: &GridConfig,
) -> (joined: bool)
    requires
        old(in_cluster).wf(),
        idx < old(frontier)@.len(),
        i32::MIN < old(frontier)@[idx as int].x < i32::MAX,
        i32::MIN < old(frontier)@[idx as int].y < i32::MAX,
    ensures
        final(in_cluster).wf(),
        joined == (keep && !old(in_cluster)@.contains(old(frontier)@[idx as int]) && !occupied@.contains(
            old(frontier)@[idx as int],
        )),
        joined ==> {
            let c = old(frontier)@[idx as int];
            let rest = old(frontier)@.update(idx as int, old(frontier)@.last()).drop_last();
            &&& final(cluster)@ == old(cluster)@.push(c)
            &&& final(in_cluster)@ == old(in_cluster)@.insert(c)
            &&& final(frontier)@ == rest + open_neighbour_seq(c, final(in_cluster)@, occupied@, *config)
            &&& forall|i: int|
                rest.len() <= i < final(frontier)@.len() ==> {
                    &&& cell_in_grid(#[trigger] final(frontier)@[i], config.width, config.height)
                    &&& !occupied@.contains(final(frontier)@[i])
                    &&& adjacent4(final(frontier)@[i], c)
                }
        },
        !joined ==> {
            &&& final(cluster)@ == old(cluster)@
            &&& final(in_cluster)@ == old(in_cluster)@
            &&& final(frontier)@ == old(frontier)@.update(idx as int, old(frontier)@.last()).drop_last()
        },
{
    let cell = frontier.swap_remove(idx);
    if keep && !in_cluster.contains(&cell) && !occupied.contains(&cell) {
        cluster.push(cell);
        in_cluster.insert(cell);
        open_neighbours(frontier, cell, in_cluster, occupied, config);
        true
    } else {
        false
    }
}

/// Grow an irregular blob of cells from `seed` by frontier expansion: a
/// random frontier cell is drawn, skipped when it already belongs to the
/// cluster or is occupied, otherwise offered to `roll`; kept cells open
/// their free neighbours. Growth stops at `target_size` cells or when the
/// frontier runs dry.
pub fn grow_cluster<R: GrowthRoll>(
    seed: Cell,
    target_size: u32,
    occupied: &CellSet,
    config: &GridConfig,
    rng: &mut SmallRng,
    roll: &mut R,
) -> (cluster: Vec<Cell>)
    requires
        config.width <= i32::MAX,
        config.height <= i32::MAX,
        i32::MIN < seed.x < i32::MAX,
        i32::MIN < seed.y < i32::MAX,
    ensures
        cluster_shape(cluster@, seed, occupied@, *config),
        cluster@.len() <= size_cap(target_size),
{
    let mut cluster: Vec<Cell> = Vec::new();
    cluster.push(seed);
    let mut in_cluster = CellSet::new();
    in_cluster.insert(seed);
    let mut frontier: Vec<Cell> = Vec::new();
    open_neighbours(&mut frontier, seed, &in_cluster, occupied, config);
    proof {
        assert forall|i: int| 0 <= i < frontier@.len() implies touches_prefix(
            frontier@[i],
            cluster@,
            cluster@.len() as int,
        ) by {
            assert(adjacent4(frontier@[i], cluster@[0]));
        }
        assert(cluster@.no_duplicates());
        assert forall|c: Cell| #[trigger] in_cluster@.contains(c) <==> cluster@.contains(c) by {
            if c == seed {
                assert(cluster@[0] == seed);
            }
        }
    }
    while (cluster.len() as u32) < target_size && frontier.len() > 0
        invariant
            config.width <= i32::MAX,
            config.height <= i32::MAX,
            1 <= cluster@.len() <= size_cap(target_size),
            cluster_shape(cluster@, seed, occupied@, *config),
            in_cluster.wf(),
            forall|c: Cell| #[trigger] in_cluster@.contains(c) <==> cluster@.contains(c),
            frontier_ok(frontier@, cluster@, occupied@, *config),
        decreases target_size - cluster@.len(), frontier@.len(),
    {
        let idx = random_index_below(rng, frontier.len());
        let candidate = frontier[idx];
        let open = !in_cluster.contains(&candidate) && !occupied.contains(&candidate);
        let keep = if open {
            roll.keep_candidate(rng, cluster.len(), target_size)
        } else {
            false
        };
        let ghost old_cluster = cluster@;
        let ghost old_frontier = frontier@;
        let ghost rest = old_frontier.update(idx as int, old_frontier.last()).drop_last();
        proof {
            assert forall|i: int| 0 <= i < rest.len() implies {
                &&& cell_in_grid(#[trigger] rest[i], config.width, config.height)
                &&& !occupied@.contains(rest[i])
                &&& touches_prefix(rest[i], old_cluster, old_cluster.len() as int)
            } by {
                if i == idx {
                    assert(rest[i] == old_frontier[old_frontier.len() - 1]);
                } else {
                    assert(rest[i] == old_frontier[i]);
                }
            }
            assert(cell_in_grid(candidate, config.width, config.height));
        }
        let joined = grow_step(&mut cluster, &mut in_cluster, &mut frontier, idx, keep, occupied, config);
        proof {
            if joined {
                let cell = candidate;
                assert(cluster@[old_cluster.len() as int] == cell);
                assert forall|i: int, j: int|
                    0 <= i < cluster@.len() && 0 <= j < cluster@.len() && i != j implies cluster@[i]
                    != cluster@[j] by {
                    if i < old_cluster.len() && j < old_cluster.len() {
                        assert(old_cluster[i] == cluster@[i]);
                        assert(old_cluster[j] == cluster@[j]);
                    } else if i < old_cluster.len() {
                        assert(old_cluster[i] == cluster@[i]);
                        assert(old_cluster.contains(cluster@[i]));
                    } else if j < old_cluster.len() {
                        assert(old_cluster[j] == cluster@[j]);
                        assert(old_cluster.contains(cluster@[j]));
                    }
                }
                assert forall|i: int| 1 <= i < cluster@.len() implies {
                    &&& cell_in_grid(#[trigger] cluster@[i], config.width, config.height)
                    &&& !occupied@.contains(cluster@[i])
                    &&& touches_prefix(cluster@[i], cluster@, i)
                } by {
                    if i < old_cluster.len() {
                        assert(old_cluster[i] == cluster@[i]);
                        assert(touches_prefix(old_cluster[i], old_cluster, i));
                        let j = choose|j: int| 0 <= j < i && adjacent4(old_cluster[i], #[trigger] old_cluster[j]);
                        assert(cluster@[j] == old_cluster[j]);
                    } else {
                        assert(touches_prefix(cell, old_cluster, old_cluster.len() as int));
                        let j = choose|j: int|
                            0 <= j < old_cluster.len() && adjacent4(cell, #[trigger] old_cluster[j]);
                        assert(cluster@[j] == old_cluster[j]);
                    }
                }
                assert forall|c: Cell| #[trigger] in_cluster@.contains(c) <==> cluster@.contains(c) by {
                    if c == cell {
                        assert(cluster@[old_cluster.len() as int] == cell);
                    } else {
                        if cluster@.contains(c) {
                            let k = choose|k: int| 0 <= k < cluster@.len() && cluster@[k] == c;
                            assert(old_cluster[k] == c);
                        }
                        if old_cluster.contains(c) {
                            let k = choose|k: int| 0 <= k < old_cluster.len() && old_cluster[k] == c;
                            assert(cluster@[k] == c);
                        }
                    }
                }
                assert forall|i: int| 0 <= i < frontier@.len() implies {
                    &&& cell_in_grid(#[trigger] frontier@[i], config.width, config.height)
                    &&& !occupied@.contains(frontier@[i])
                    &&& touches_prefix(frontier@[i], cluster@, cluster@.len() as int)
                } by {
                    if i < rest.len() {
                        assert(frontier@[i] == rest[i]);
                        assert(touches_prefix(rest[i], old_cluster, old_cluster.len() as int));
                        let j = choose|j: int|
                            0 <= j < old_cluster.len() && adjacent4(rest[i], #[trigger] old_cluster[j]);
                        assert(cluster@[j] == old_cluster[j]);
                    } else {
                        assert(adjacent4(frontier@[i], cluster@[cluster@.len() - 1]));
                    }
                }
            } else {
                assert(frontier@ == rest);
            }
        }
    }
    cluster
}

/// Cells of all listed clusters.
pub open spec fn cells_of(clusters: Seq<Vec<Cell>>) -> Set<Cell> {
    Set::new(|c: Cell| exists|i: int| 0 <= i < clusters.len() && (#[trigger] clusters[i]@).contains(c))
}

/// Clusters placed on free cells: each is a non-empty, 4-connected list of
/// distinct in-grid cells that avoid `before`, has at most
/// `size_cap(max_size)` cells, and no two clusters share a cell.
pub open spec fn clusters_placed(clusters: Seq<Vec<Cell>>, before: Set<Cell>, config: GridConfig, max_size: u32) -> bool {
    &&& forall|i: int|
        0 <= i < clusters.len() ==> {
            &&& 1 <= (#[trigger] clusters[i]@).len() <= size_cap(max_size)
            &&& clusters[i]@.no_duplicates()
            &&& forall|k: int|
                1 <= k < clusters[i]@.len() ==> touches_prefix(clusters[i]@[k], clusters[i]@, k)
        }
    &&& forall|i: int, k: int|
        0 <= i < clusters.len() && 0 <= k < clusters[i]@.len() ==> cell_in_grid(
            #[trigger] clusters[i]@[k],
            config.width,
            config.height,
        ) && !before.contains(clusters[i]@[k])
    &&& forall|i: int, j: int, c: Cell|
        0 <= i < clusters.len() && 0 <= j < clusters.len() && i != j && #[trigger] clusters[i]@.contains(c)
            ==> !#[trigger] clusters[j]@.contains(c)
}

/// The first `k` cells of a list, as a set.
pub open spec fn prefix_cells(s: Seq<Cell>, k: int) -> Set<Cell> {
    Set::new(|c: Cell| exists|m: int| 0 <= m < k && s[m] == c)
}

/// One more cell of the list adds that cell to its prefix set.
pub proof fn lemma_prefix_cells_step(s: Seq<Cell>, k: int)
    requires
        0 <= k < s.len(),
    ensures
        prefix_cells(s, k + 1) == prefix_cells(s, k).insert(s[k]),
{
    assert forall|c: Cell| #[trigger] prefix_cells(s, k + 1).contains(c) <==> prefix_cells(s, k).insert(
        s[k],
    ).contains(c) by {
        if prefix_cells(s, k + 1).contains(c) {
            let m = choose|m: int| 0 <= m < k + 1 && s[m] == c;
            if m < k {
                assert(prefix_cells(s, k).contains(c));
            }
        }
        if prefix_cells(s, k).contains(c) {
            let m = choose|m: int| 0 <= m < k && s[m] == c;
            assert(0 <= m < k + 1 && s[m] == c);
        }
        if c == s[k] {
            assert(0 <= k < k + 1 && s[k] == c);
        }
    }
    assert(prefix_cells(s, k + 1) =~= prefix_cells(s, k).insert(s[k]));
}

/// Some cell of the grid is occupied.
pub open spec fn grid_touched(occupied: Set<Cell>, config: GridConfig) -> bool {
    exists|c: Cell| cell_in_grid(c, config.width, config.height) && #[trigger] occupied.contains(c)
}

/// Generate up to `num_clusters` clusters, each seeded on a free random
/// cell and grown toward a random size in `[min_size, max_size]`; every
/// placed cell is marked occupied. Stops early when no free seed is found,
/// which can only happen once some grid cell is occupied.
pub fn generate_clusters<R: GrowthRoll>(
    num_clusters: u32,
    occupied: &mut CellSet,
    config: &GridConfig,
    rng: &mut SmallRng,
    roll: &mut R,
    min_size: u32,
    max_size: u32,
) -> (clusters: Vec<Vec<Cell>>)
    requires
        old(occupied).wf(),
        1 <= config.width <= i32::MAX,
        1 <= config.height <= i32::MAX,
        min_size <= max_size,
    ensures
        final(occupied).wf(),
        clusters@.len() <= num_clusters,
        clusters_placed(clusters@, old(occupied)@, *config, max_size),
        final(occupied)@ == old(occupied)@.union(cells_of(clusters@)),
        clusters@.len() < num_clusters ==> grid_touched(final(occupied)@, *config),
{
    let ghost before = occupied@;
    let mut clusters: Vec<Vec<Cell>> = Vec::new();
    let mut n: u32 = 0;
    let mut exhausted = false;
    assert(occupied@ =~= before.union(cells_of(clusters@)));
    while n < num_clusters && !exhausted
        invariant
            occupied.wf(),
            1 <= config.width <= i32::MAX,
            1 <= config.height <= i32::MAX,
            min_size <= max_size,
            n <= num_clusters,
            clusters@.len() == n,
            clusters_placed(clusters@, before, *config, max_size),
            occupied@ == before.union(cells_of(clusters@)),
            exhausted ==> grid_touched(occupied@, *config),
        decreases num_clusters - n, if exhausted { 0int } else { 1int },
    {
        match pick_random_seed(config, occupied, rng) {
            None => {
                proof {
                    if !grid_touched(occupied@, *config) {
                        assert forall|c: Cell| cell_in_grid(c, config.width, config.height) implies !#[trigger] occupied@.contains(c) by {
                            if occupied@.contains(c) {
                                assert(grid_touched(occupied@, *config));
                            }
                        }
                    }
                }
                exhausted = true;
            },
            Some(seed) => {
                let target_size = random_u32_inclusive(rng, min_size, max_size);
                let cluster = grow_cluster(seed, target_size, occupied, config, rng, roll);
                let ghost occ_before = occupied@;
                assert(occ_before.union(prefix_cells(cluster@, 0)) =~= occ_before);
                let mut k: usize = 0;
                while k < cluster.len()
                    invariant
                        occupied.wf(),
                        k <= cluster@.len(),
                        occupied@ == occ_before.union(prefix_cells(cluster@, k as int)),
                    decreases cluster@.len() - k,
                {
                    occupied.insert(cluster[k]);
                    proof {
                        lemma_prefix_cells_step(cluster@, k as int);
                    }
                    k = k + 1;
                }
                let ghost old_clusters = clusters@;
                proof {
                    // every cell of the new cluster avoids what was occupied before it
                    assert forall|m: int| 0 <= m < cluster@.len() implies cell_in_grid(
                        #[trigger] cluster@[m],
                        config.width,
                        config.height,
                    ) && !occ_before.contains(cluster@[m]) by {
                        if m == 0 {
                            assert(cluster@[0] == seed);
                        }
                    }
                    assert(size_cap(target_size) <= size_cap(max_size));
                }
                clusters.push(cluster);
                proof {
                    let last = old_clusters.len() as int;
                    assert(clusters@[last]@ == cluster@);
                    assert forall|i: int| 0 <= i < clusters@.len() implies {
                        &&& 1 <= (#[trigger] clusters@[i]@).len() <= size_cap(max_size)
                        &&& clusters@[i]@.no_duplicates()
                        &&& forall|k: int|
                            1 <= k < clusters@[i]@.len() ==> touches_prefix(clusters@[i]@[k], clusters@[i]@, k)
                    } by {
                        if i < last {
                            assert(clusters@[i] == old_clusters[i]);
                        }
                    }
                    assert forall|i: int, k: int|
                        0 <= i < clusters@.len() && 0 <= k < clusters@[i]@.len() implies cell_in_grid(
                            #[trigger] clusters@[i]@[k],
                            config.width,
                            config.height,
                        ) && !before.contains(clusters@[i]@[k]) by {
                        if i < last {
                            assert(clusters@[i] == old_clusters[i]);
                        } else {
                            assert(!occ_before.contains(cluster@[k]));
                        }
                    }
                    assert forall|i: int, j: int, c: Cell|
                        0 <= i < clusters@.len() && 0 <= j < clusters@.len() && i != j && #[trigger] clusters@[i]@.contains(c)
                            implies !#[trigger] clusters@[j]@.contains(c) by {
                        if i < last && j < last {
                            assert(clusters@[i] == old_clusters[i]);
                            assert(clusters@[j] == old_clusters[j]);
                        } else if i < last {
                            assert(clusters@[i] == old_clusters[i]);
                            assert(cells_of(old_clusters).contains(c));
                            if cluster@.contains(c) {
                                let m = choose|m: int| 0 <= m < cluster@.len() && cluster@[m] == c;
                                assert(!occ_before.contains(cluster@[m]));
                            }
                        } else {
                            assert(clusters@[j] == old_clusters[j]);
                            if old_clusters[j]@.contains(c) {
                                assert(cells_of(old_clusters).contains(c));
                                let m = choose|m: int| 0 <= m < cluster@.len() && cluster@[m] == c;
                                assert(!occ_before.contains(cluster@[m]));
                            }
                        }
                    }
                    assert forall|c: Cell| #[trigger] occupied@.contains(c) <==> before.union(cells_of(clusters@)).contains(c) by {
                        if cells_of(clusters@).contains(c) {
                            let i = choose|i: int| 0 <= i < clusters@.len() && (#[trigger] clusters@[i]@).contains(c);
                            if i < last {
                                assert(clusters@[i] == old_clusters[i]);
                                assert(cells_of(old_clusters).contains(c));
                            } else {
                                let m = choose|m: int| 0 <= m < cluster@.len() && cluster@[m] == c;
                                assert(prefix_cells(cluster@, cluster@.len() as int).contains(c));
                            }
                        }
                        if cells_of(old_clusters).contains(c) {
                            let i = choose|i: int| 0 <= i < old_clusters.len() && (#[trigger] old_clusters[i]@).contains(c);
                            assert(clusters@[i] == old_clusters[i]);
                        }
                        if prefix_cells(cluster@, cluster@.len() as int).contains(c) {
                            let m = choose|m: int| 0 <= m < cluster@.len() && cluster@[m] == c;
                            assert(clusters@[last]@.contains(c));
                        }
                    }
                    assert(occupied@ =~= before.union(cells_of(clusters@)));
                }
                n = n + 1;
            },
        }
    }
    clusters
}

// ---------------------------------------------------------------------------
// Blocking clusters on the navigation grid
// ---------------------------------------------------------------------------

/// The navigation-grid cell of a signed cell.
pub open spec fn cell_triple(c: Cell) -> (u32, u32, u32) {
    (c.x as u32, c.y as u32, 0u32)
}

/// Grid cells of one cluster.
pub open spec fn triples_of(cluster: Seq<Cell>) -> Set<(u32, u32, u32)> {
    Set::new(|t: (u32, u32, u32)| exists|k: int| 0 <= k < cluster.len() && t == cell_triple(#[trigger] cluster[k]))
}

/// Grid cells of clusters `lo` up to (not including) `hi`.
pub open spec fn triples_range(clusters: Seq<Vec<Cell>>, lo: int, hi: int) -> Set<(u32, u32, u32)>
    decreases hi - lo,
{
    if lo >= hi {
        Set::empty()
    } else {
        triples_of(clusters[lo]@).union(triples_range(clusters, lo + 1, hi))
    }
}

/// Cells of clusters `lo` up to (not including) `hi`.
pub open spec fn cells_range(clusters: Seq<Vec<Cell>>, lo: int, hi: int) -> Set<Cell>
    decreases hi - lo,
{
    if lo >= hi {
        Set::empty()
    } else {
        prefix_cells(clusters[lo]@, clusters[lo]@.len() as int).union(cells_range(clusters, lo + 1, hi))
    }
}

/// Extending a range by one cluster at its end adds that cluster's cells.
pub proof fn lemma_triples_range_snoc(clusters: Seq<Vec<Cell>>, lo: int, hi: int)
    requires
        0 <= lo <= hi < clusters.len(),
    ensures
        triples_range(clusters, lo, hi + 1) == triples_range(clusters, lo, hi).union(
            triples_of(clusters[hi]@),
        ),
    decreases hi - lo,
{
    if lo < hi {
        lemma_triples_range_snoc(clusters, lo + 1, hi);
        assert(triples_range(clusters, lo, hi + 1) == triples_of(clusters[lo]@).union(
            triples_range(clusters, lo + 1, hi + 1),
        ));
        assert(triples_range(clusters, lo, hi) == triples_of(clusters[lo]@).union(
            triples_range(clusters, lo + 1, hi),
        ));
    } else {
        assert(triples_range(clusters, lo, hi + 1) == triples_of(clusters[lo]@).union(
            triples_range(clusters, lo + 1, hi + 1),
        ));
        assert(triples_range(clusters, lo + 1, hi + 1) == Set::<(u32, u32, u32)>::empty());
        assert(triples_range(clusters, lo, hi) == Set::<(u32, u32, u32)>::empty());
    }
    assert(triples_range(clusters, lo, hi + 1) =~= triples_range(clusters, lo, hi).union(
        triples_of(clusters[hi]@),
    ));
}

/// Membership in a range of cluster cells.
pub proof fn lemma_cells_range_contains(clusters: Seq<Vec<Cell>>, lo: int, hi: int, c: Cell)
    requires
        0 <= lo,
        hi <= clusters.len(),
    ensures
        cells_range(clusters, lo, hi).contains(c) <==> exists|i: int|
            lo <= i < hi && #[trigger] clusters[i]@.contains(c),
    decreases hi - lo,
{
    if lo < hi {
        lemma_cells_range_contains(clusters, lo + 1, hi, c);
        if clusters[lo]@.contains(c) {
            let m = choose|m: int| 0 <= m < clusters[lo]@.len() && clusters[lo]@[m] == c;
            assert(prefix_cells(clusters[lo]@, clusters[lo]@.len() as int).contains(c));
        }
        if prefix_cells(clusters[lo]@, clusters[lo]@.len() as int).contains(c) {
            let m = choose|m: int| 0 <= m < clusters[lo]@.len() && clusters[lo]@[m] == c;
            assert(clusters[lo]@.contains(c));
        }
    }
}

/// Membership in a range of cluster grid cells.
pub proof fn lemma_triples_range_contains(clusters: Seq<Vec<Cell>>, lo: int, hi: int, t: (u32, u32, u32))
    requires
        0 <= lo,
        hi <= clusters.len(),
    ensures
        triples_range(clusters, lo, hi).contains(t) <==> exists|i: int, k: int|
            lo <= i < hi && 0 <= k < clusters[i]@.len() && t == cell_triple(#[trigger] clusters[i]@[k]),
    decreases hi - lo,
{
    if lo < hi {
        lemma_triples_range_contains(clusters, lo + 1, hi, t);
        if triples_of(clusters[lo]@).contains(t) {
            let k = choose|k: int| 0 <= k < clusters[lo]@.len() && t == cell_triple(#[trigger] clusters[lo]@[k]);
            assert(lo <= lo < hi && 0 <= k < clusters[lo]@.len() && t == cell_triple(clusters[lo]@[k]));
        }
        if exists|i: int, k: int|
            lo <= i < hi && 0 <= k < clusters[i]@.len() && t == cell_triple(#[trigger] clusters[i]@[k]) {
            let (i, k) = choose|i: int, k: int|
                lo <= i < hi && 0 <= k < clusters[i]@.len() && t == cell_triple(#[trigger] clusters[i]@[k]);
            if i == lo {
                assert(triples_of(clusters[lo]@).contains(t));
            } else {
                assert(lo + 1 <= i < hi && 0 <= k < clusters[i]@.len() && t == cell_triple(clusters[i]@[k]));
            }
        }
    }
}

/// Set every cell of `cluster` to `nav` on the grid.
fn set_cluster_nav(grid: &mut NavGrid, cluster: &Vec<Cell>, nav: NavKind)
    requires
        grid_dims(*old(grid)).2 >= 1,
        nav_cost_ok(nav),
        forall|k: int|
            0 <= k < cluster@.len() ==> cell_in_grid(
                #[trigger] cluster@[k],
                grid_dims(*old(grid)).0,
                grid_dims(*old(grid)).1,
            ),
    ensures
        grid_dims(*final(grid)) == grid_dims(*old(grid)),
        cluster@.len() > 0 ==> grid_needs_build(*final(grid)),
        cluster@.len() == 0 ==> *final(grid) == *old(grid),
        grid_blocked(*final(grid)) == match nav {
            NavKind::Passable(_) => grid_blocked(*old(grid)).difference(triples_of(cluster@)),
            NavKind::Impassable => grid_blocked(*old(grid)).union(triples_of(cluster@)),
        },
{
    let ghost start = grid_blocked(*grid);
    let ghost dims = grid_dims(*grid);
    let mut k: usize = 0;
    while k < cluster.len()
        invariant
            k <= cluster@.len(),
            grid_dims(*grid) == dims,
            dims.2 >= 1,
            nav_cost_ok(nav),
            forall|m: int| 0 <= m < cluster@.len() ==> cell_in_grid(#[trigger] cluster@[m], dims.0, dims.1),
            k > 0 ==> grid_needs_build(*grid),
            k == 0 ==> *grid == *old(grid),
            grid_blocked(*grid) == match nav {
                NavKind::Passable(_) => start.difference(triples_of(cluster@.take(k as int))),
                NavKind::Impassable => start.union(triples_of(cluster@.take(k as int))),
            },
        decreases cluster@.len() - k,
    {
        let c = cluster[k];
        assert(cell_in_grid(c, dims.0, dims.1));
        let pos = GridPos { x: c.x as u32, y: c.y as u32, z: 0 };
        grid_set_nav(grid, pos, nav);
        proof {
            let next = cluster@.take(k + 1);
            assert(triples_of(next) =~= triples_of(cluster@.take(k as int)).insert(cell_triple(c))) by {
                assert forall|t: (u32, u32, u32)| #[trigger] triples_of(next).contains(t) <==> triples_of(
                    cluster@.take(k as int),
                ).insert(cell_triple(c)).contains(t) by {
                    if triples_of(next).contains(t) {
                        let m = choose|m: int| 0 <= m < next.len() && t == cell_triple(#[trigger] next[m]);
                        if m < k {
                            assert(cluster@.take(k as int)[m] == next[m]);
                        }
                    }
                    if triples_of(cluster@.take(k as int)).contains(t) {
                        let m = choose|m: int|
                            0 <= m < k && t == cell_triple(#[trigger] cluster@.take(k as int)[m]);
                        assert(next[m] == cluster@.take(k as int)[m]);
                    }
                    if t == cell_triple(c) {
                        assert(next[k as int] == c);
                    }
                }
            }
            assert(triple(pos) == cell_triple(c));
            match nav {
                NavKind::Passable(_) => {
                    assert(grid_blocked(*grid) =~= start.difference(triples_of(next)));
                },
                NavKind::Impassable => {
                    assert(grid_blocked(*grid) =~= start.union(triples_of(next)));
                },
            }
        }
        k = k + 1;
    }
    proof {
        assert(cluster@.take(k as int) =~= cluster@);
        if cluster@.len() == 0 {
            assert(triples_of(cluster@) =~= Set::<(u32, u32, u32)>::empty());
            assert(start.difference(triples_of(cluster@)) =~= start);
            assert(start.union(triples_of(cluster@)) =~= start);
        }
    }
}

/// Mark blocking clusters impassable, then keep removing clusters from the
/// back (restoring their cells as passable and freeing them) until all four
/// edge midpoints reach the pile center again or no cluster is left.
pub fn place_blocking_clusters(
    clusters: Vec<Vec<Cell>>,
    occupied: &mut CellSet,
    grid: &mut NavGrid,
    config: &GridConfig,
    center: GridPos,
) -> (kept: Vec<Vec<Cell>>)
    requires
        old(occupied).wf(),
        1 <= config.width,
        1 <= config.height,
        nav_side_fits(config.width),
        nav_side_fits(config.height),
        grid_dims(*old(grid)) == (config.width, config.height, 1u32),
        forall|i: int, k: int|
            0 <= i < clusters@.len() && 0 <= k < clusters@[i]@.len() ==> cell_in_grid(
                #[trigger] clusters@[i]@[k],
                config.width,
                config.height,
            ),
    ensures
        final(occupied).wf(),
        kept@.len() <= clusters@.len(),
        forall|i: int| 0 <= i < kept@.len() ==> #[trigger] kept@[i] == clusters@[i],
        kept@.len() > 0 ==> paths_valid(*final(grid), *config, center),
        grid_dims(*final(grid)) == grid_dims(*old(grid)),
        !grid_needs_build(*final(grid)),
        grid_blocked(*final(grid)) == grid_blocked(*old(grid)).union(
            triples_range(clusters@, 0, clusters@.len() as int),
        ).difference(triples_range(clusters@, kept@.len() as int, clusters@.len() as int)),
        final(occupied)@ == old(occupied)@.difference(
            cells_range(clusters@, kept@.len() as int, clusters@.len() as int),
        ),
        forall|k: int|
            kept@.len() < k <= clusters@.len() ==> !layout_valid(
                grid_blocked(*old(grid)).union(triples_range(clusters@, 0, clusters@.len() as int)).difference(
                    triples_range(clusters@, k, clusters@.len() as int),
                ),
                grid_dims(*old(grid)),
                *config,
                center,
            ),
{
    let ghost all = clusters@;
    let ghost n = clusters@.len() as int;
    let ghost dims = grid_dims(*grid);
    let ghost blocked0 = grid_blocked(*grid);
    let ghost occupied0 = occupied@;
    let mut i: usize = 0;
    while i < clusters.len()
        invariant
            i <= clusters@.len(),
            grid_dims(*grid) == dims,
            dims == (config.width, config.height, 1u32),
            forall|i: int, k: int|
                0 <= i < clusters@.len() && 0 <= k < clusters@[i]@.len() ==> cell_in_grid(
                    #[trigger] clusters@[i]@[k],
                    config.width,
                    config.height,
                ),
            grid_blocked(*grid) == blocked0.union(triples_range(clusters@, 0, i as int)),
        decreases clusters@.len() - i,
    {
        proof {
            lemma_triples_range_snoc(clusters@, 0, i as int);
        }
        set_cluster_nav(grid, &clusters[i], NavKind::Impassable);
        proof {
            assert(grid_blocked(*grid) =~= blocked0.union(triples_range(clusters@, 0, i + 1)));
        }
        i = i + 1;
    }
    grid_build(grid);
    let mut kept = clusters;
    let mut done = false;
    assert(blocked0.union(triples_range(all, 0, n)).difference(triples_range(all, n, n)) =~= blocked0.union(
        triples_range(all, 0, n),
    ));
    assert(occupied0.difference(cells_range(all, n, n)) =~= occupied0);
    while !done
        invariant
            occupied.wf(),
            kept@.len() <= n,
            n == all.len(),
            forall|i: int| 0 <= i < kept@.len() ==> #[trigger] kept@[i] == all[i],
            forall|i: int, k: int|
                0 <= i < all.len() && 0 <= k < all[i]@.len() ==> cell_in_grid(
                    #[trigger] all[i]@[k],
                    config.width,
                    config.height,
                ),
            grid_dims(*grid) == dims,
            dims == (config.width, config.height, 1u32),
            1 <= config.width,
            1 <= config.height,
            nav_side_fits(config.width),
            nav_side_fits(config.height),
            !grid_needs_build(*grid),
            grid_blocked(*grid) == blocked0.union(triples_range(all, 0, n)).difference(
                triples_range(all, kept@.len() as int, n),
            ),
            occupied@ == occupied0.difference(cells_range(all, kept@.len() as int, n)),
            done ==> (paths_valid(*grid, *config, center) || kept@.len() == 0),
            forall|k: int|
                kept@.len() < k <= n ==> !layout_valid(
                    blocked0.union(triples_range(all, 0, n)).difference(triples_range(all, k, n)),
                    dims,
                    *config,
                    center,
                ),
        decreases kept@.len() + if done {
            0int
        } else {
            1int
        },
    {
        if validate_paths(grid, config, center) {
            done = true;
        } else {
            let ghost before = kept@;
            assert(!layout_valid(
                blocked0.union(triples_range(all, 0, n)).difference(triples_range(all, before.len() as int, n)),
                dims,
                *config,
                center,
            ));
            match kept.pop() {
                None => {
                    done = true;
                },
                Some(removed) => {
                    let j = kept.len();
                    assert(removed == all[j as int]);
                    set_cluster_nav(grid, &removed, NavKind::Passable(MOVE_COST));
                    let mut k: usize = 0;
                    let ghost occ_mid = occupied@;
                    assert(occ_mid.difference(prefix_cells(removed@, 0)) =~= occ_mid);
                    while k < removed.len()
                        invariant
                            occupied.wf(),
                            k <= removed@.len(),
                            occupied@ == occ_mid.difference(prefix_cells(removed@, k as int)),
                        decreases removed@.len() - k,
                    {
                        occupied.remove(&removed[k]);
                        proof {
                            lemma_prefix_cells_step(removed@, k as int);
                            assert(occupied@ =~= occ_mid.difference(prefix_cells(removed@, k + 1)));
                        }
                        k = k + 1;
                    }
                    grid_build(grid);
                    proof {
                        assert(triples_range(all, j as int, n) == triples_of(all[j as int]@).union(
                            triples_range(all, j + 1, n),
                        ));
                        assert(grid_blocked(*grid) =~= blocked0.union(triples_range(all, 0, n)).difference(
                            triples_range(all, j as int, n),
                        ));
                        assert(cells_range(all, j as int, n) == prefix_cells(
                            all[j as int]@,
                            all[j as int]@.len() as int,
                        ).union(cells_range(all, j + 1, n)));
                        assert(occupied@ =~= occupied0.difference(cells_range(all, j as int, n)));
                        assert forall|i: int| 0 <= i < kept@.len() implies #[trigger] kept@[i] == all[i] by {
                            assert(kept@[i] == before[i]);
                        }
                    }
                },
            }
        }
    }
    kept
}

} // verus!
