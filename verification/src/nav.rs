//! The navigation grid, through `bevy_northstar`'s ordinal grid.
//!
//! The grid's contents are tracked by names: the set of impassable cells,
//! its dimensions, and whether it must be rebuilt before pathfinding. Path
//! existence on a built grid is named too; nothing here restates the
//! pathfinding algorithm.

use bevy::math::UVec3;
use bevy_northstar::grid::{Grid, GridSettingsBuilder};
use bevy_northstar::nav::Nav;
use bevy_northstar::neighbor::OrdinalNeighborhood;
use bevy_northstar::pathfind::PathfindArgs;
use vstd::prelude::*;

use crate::geom::{Cell, GridConfig, GridPos};

verus! {

/// A `bevy_northstar` ordinal (8-way) navigation grid, held opaquely: the
/// proofs see it only through the names below. The grid is reached only
/// through this module, which sets every passable cell to movement cost 1.
#[verifier::external_body]
pub struct NavGrid {
    grid: Grid<OrdinalNeighborhood>,
}

/// Cells (x, y, z) of the grid whose navigation is `Impassable`.
pub uninterp spec fn grid_blocked(grid: NavGrid) -> Set<(u32, u32, u32)>;

/// Dimensions (width, height, depth) the grid was created with.
pub uninterp spec fn grid_dims(grid: NavGrid) -> (u32, u32, u32);

/// Whether the grid was modified (or never built) since its last build.
pub uninterp spec fn grid_needs_build(grid: NavGrid) -> bool;

/// Whether the cell `t` lies within grid dimensions `dims`.
pub open spec fn within_dims(t: (u32, u32, u32), dims: (u32, u32, u32)) -> bool {
    t.0 < dims.0 && t.1 < dims.1 && t.2 < dims.2
}

/// Two distinct cells of one layer that touch, orthogonally or diagonally.
pub open spec fn touches8(a: (u32, u32, u32), b: (u32, u32, u32)) -> bool {
    &&& a != b
    &&& a.2 == b.2
    &&& -1 <= a.0 - b.0 <= 1
    &&& -1 <= a.1 - b.1 <= 1
}

/// A walk on an 8-way grid: every step goes to a touching cell that lies in
/// the grid and is not impassable (the first cell may be anything).
pub open spec fn is_walk(w: Seq<(u32, u32, u32)>, blocked: Set<(u32, u32, u32)>, dims: (u32, u32, u32)) -> bool {
    &&& w.len() >= 1
    &&& forall|i: int|
        1 <= i < w.len() ==> touches8(w[i - 1], #[trigger] w[i]) && within_dims(w[i], dims)
            && !blocked.contains(w[i])
}

/// From the in-grid cell `start` some walk leads to `goal`.
pub open spec fn reaches(
    blocked: Set<(u32, u32, u32)>,
    dims: (u32, u32, u32),
    start: (u32, u32, u32),
    goal: (u32, u32, u32),
) -> bool {
    &&& within_dims(start, dims)
    &&& exists|w: Seq<(u32, u32, u32)>| #[trigger] is_walk(w, blocked, dims) && w[0] == start && w.last() == goal
}

/// The grid position as the triple the grid names use.
pub open spec fn triple(p: GridPos) -> (u32, u32, u32) {
    (p.x, p.y, p.z)
}

/// Whether `p` lies within grid dimensions `dims`.
pub open spec fn within(p: GridPos, dims: (u32, u32, u32)) -> bool {
    p.x < dims.0 && p.y < dims.1 && p.z < dims.2
}

/// Movement cost of every passable cell: the game's grid is uniform.
pub const MOVE_COST: u32 = 1;

/// Navigation setting of one cell.
#[derive(Clone, Copy, Debug, PartialEq, Eq, Structural)]
pub enum NavKind {
    /// Walkable, at the given movement cost.
    Passable(u32),
    /// Solid.
    Impassable,
}

/// A setting the grid accepts: passable cells cost `MOVE_COST`, which
/// keeps the path searches' cost sums in range.
pub open spec fn nav_cost_ok(nav: NavKind) -> bool {
    nav matches NavKind::Passable(c) ==> c == MOVE_COST
}

/// A grid side on which A* keeps its arithmetic in range: its heuristic
/// (1000 per cell of distance) and the size hint it squares fit `usize`,
/// and path costs (1 per cell) fit `u32`.
pub open spec fn nav_side_fits(side: u32) -> bool {
    side <= 32768 && (usize::BITS == 64 || side <= 120)
}

/// Side length of a pathfinding chunk, in cells.
pub const CHUNK_SIZE: u32 = 8;

/// Builds the settings with `GridSettingsBuilder::new_2d(width, height)`
/// and `chunk_size(chunk_size)`, then makes the grid with `Grid::new`.
/// Claimed, as the source shows: every cell starts passable, the grid has
/// depth 1 and is not built yet. The builder panics on a side or chunk
/// size below 3, which is excluded.
#[verifier::external_body]
pub(crate) fn new_ordinal_grid(width: u32, height: u32, chunk_size: u32) -> (grid: NavGrid)
    requires
        width >= 3,
        height >= 3,
        chunk_size >= 3,
    ensures
        grid_blocked(grid) == Set::<(u32, u32, u32)>::empty(),
        grid_dims(grid) == (width, height, 1u32),
        grid_needs_build(grid),
{
    NavGrid {
        grid: Grid::new(&GridSettingsBuilder::new_2d(width, height).chunk_size(chunk_size).build()),
    }
}

/// Calls `Grid::set_nav` with the matching `Nav` setting. Claimed, as the
/// source shows: the cell becomes impassable exactly for `Impassable`, the
/// dimensions stay, and the grid needs a build afterwards. `set_nav` panics
/// outside the grid, which is excluded; only the cost `MOVE_COST` is
/// admitted, so that the searches' cost sums stay in range.
#[verifier::external_body]
pub(crate) fn grid_set_nav(grid: &mut NavGrid, pos: GridPos, nav: NavKind)
    requires
        within(pos, grid_dims(*old(grid))),
        nav_cost_ok(nav),
    ensures
        grid_dims(*final(grid)) == grid_dims(*old(grid)),
        grid_needs_build(*final(grid)),
        grid_blocked(*final(grid)) == match nav {
            NavKind::Passable(_) => grid_blocked(*old(grid)).remove(triple(pos)),
            NavKind::Impassable => grid_blocked(*old(grid)).insert(triple(pos)),
        },
{
    let nav = match nav {
        NavKind::Passable(cost) => Nav::Passable(cost),
        NavKind::Impassable => Nav::Impassable,
    };
    grid.grid.set_nav(UVec3::new(pos.x, pos.y, pos.z), nav)
}

/// Calls `Grid::build`. Claimed: the cells and dimensions are unchanged and
/// the grid is ready for pathfinding. The build runs cost-summing searches
/// inside each chunk; every passable cell this module sets (and every cell
/// of a new grid) costs 1, so those sums stay far below `u32::MAX`.
#[verifier::external_body]
pub(crate) fn grid_build(grid: &mut NavGrid)
    ensures
        grid_dims(*final(grid)) == grid_dims(*old(grid)),
        grid_blocked(*final(grid)) == grid_blocked(*old(grid)),
        !grid_needs_build(*final(grid)),
{
    grid.grid.build()
}

/// Calls `Grid::pathfind` with `PathfindArgs::new(start, goal).astar()` and
/// reports whether a path came back. Claimed, as the source shows: no path
/// when the grid needs a build or either end lies outside it; otherwise a
/// path exactly when a walk leads from `start` to `goal`. The search starts
/// at `start` whatever its setting, moves to the in-grid, non-impassable
/// cells among the 8 neighbours (the neighbour bits of the last build; no
/// filters, masks, blocking or limits are set), and re-expands a cell when
/// a cheaper route to it turns up, so it visits every reachable cell before
/// giving up. Its heuristic, size hint and path costs overflow on grids
/// larger than `nav_side_fits` admits, which are excluded; costs are
/// `MOVE_COST` per cell (see `grid_set_nav`).
#[verifier::external_body]
pub(crate) fn grid_astar_path_exists(
    grid: &NavGrid,
    start: GridPos,
    goal: GridPos,
) -> (found: bool)
    requires
        nav_side_fits(grid_dims(*grid).0),
        nav_side_fits(grid_dims(*grid).1),
        grid_dims(*grid).2 == 1,
    ensures
        grid_needs_build(*grid) ==> !found,
        !within(start, grid_dims(*grid)) || !within(goal, grid_dims(*grid)) ==> !found,
        !grid_needs_build(*grid) ==> found == reaches(
            grid_blocked(*grid),
            grid_dims(*grid),
            triple(start),
            triple(goal),
        ),
{
    let start = UVec3::new(start.x, start.y, start.z);
    let goal = UVec3::new(goal.x, goal.y, goal.z);
    grid.grid.pathfind(&mut PathfindArgs::new(start, goal).astar()).is_some()
}

/// Calls `Grid::nav` and tells whether it returned `Some(Nav::Impassable)`.
/// Claimed, as the source shows: `nav` gives `None` outside the grid and
/// otherwise the cell's setting, which is `Impassable` exactly for the cells
/// the names record as blocked.
#[verifier::external_body]
pub(crate) fn grid_cell_blocked(grid: &NavGrid, pos: GridPos) -> (b: bool)
    ensures
        b == (within(pos, grid_dims(*grid)) && grid_blocked(*grid).contains(triple(pos))),
{
    match grid.grid.nav(UVec3::new(pos.x, pos.y, pos.z)) {
        Some(Nav::Impassable) => true,
        _ => false,
    }
}

/// Where an enemy stands after a movement step: on the cell under its new
/// position (`candidate`, `None` off the grid) unless that cell is
/// impassable, otherwise where it stood before.
pub fn next_agent_pos(grid: &NavGrid, current: GridPos, candidate: Option<Cell>) -> (p: GridPos)
    requires
        candidate matches Some(c) ==> c.x >= 0 && c.y >= 0,
    ensures
        p == (match candidate {
            Some(c) => {
                let pos = GridPos { x: c.x as u32, y: c.y as u32, z: 0 };
                if within(pos, grid_dims(*grid)) && grid_blocked(*grid).contains(triple(pos)) {
                    current
                } else {
                    pos
                }
            },
            None => current,
        }),
{
    match candidate {
        Some(c) => {
            let pos = GridPos { x: c.x as u32, y: c.y as u32, z: 0 };
            if grid_cell_blocked(grid, pos) {
                current
            } else {
                pos
            }
        },
        None => current,
    }
}

/// The pathfinding grid for a map: every cell passable (cost 1), built.
pub fn build_nav_grid(config: &GridConfig) -> (grid: NavGrid)
    requires
        config.width >= 3,
        config.height >= 3,
    ensures
        grid_blocked(grid) == Set::<(u32, u32, u32)>::empty(),
        grid_dims(grid) == (config.width, config.height, 1u32),
        !grid_needs_build(grid),
{
    let mut grid = new_ordinal_grid(config.width, config.height, CHUNK_SIZE);
    let mut x: u32 = 0;
    while x < config.width
        invariant
            x <= config.width,
            grid_blocked(grid) == Set::<(u32, u32, u32)>::empty(),
            grid_dims(grid) == (config.width, config.height, 1u32),
        decreases config.width - x,
    {
        let mut y: u32 = 0;
        while y < config.height
            invariant
                x < config.width,
                y <= config.height,
                grid_blocked(grid) == Set::<(u32, u32, u32)>::empty(),
                grid_dims(grid) == (config.width, config.height, 1u32),
            decreases config.height - y,
        {
            grid_set_nav(&mut grid, GridPos { x, y, z: 0 }, NavKind::Passable(MOVE_COST));
            assert(Set::<(u32, u32, u32)>::empty().remove((x, y, 0u32)) =~= Set::<
                (u32, u32, u32),
            >::empty());
            y = y + 1;
        }
        x = x + 1;
    }
    grid_build(&mut grid);
    grid
}

/// The four edge midpoints (left, right, bottom, top) that must reach the
/// pile.
pub open spec fn edge_midpoints(config: GridConfig) -> Seq<GridPos> {
    seq![
        GridPos { x: 0, y: config.height / 2, z: 0 },
        GridPos { x: (config.width - 1) as u32, y: config.height / 2, z: 0 },
        GridPos { x: config.width / 2, y: 0, z: 0 },
        GridPos { x: config.width / 2, y: (config.height - 1) as u32, z: 0 },
    ]
}

/// On a grid of dimensions `dims` whose impassable cells are `blocked`,
/// walks lead from all four edge midpoints to `center`.
pub open spec fn layout_valid(
    blocked: Set<(u32, u32, u32)>,
    dims: (u32, u32, u32),
    config: GridConfig,
    center: GridPos,
) -> bool {
    forall|i: int|
        0 <= i < 4 ==> reaches(blocked, dims, triple(#[trigger] edge_midpoints(config)[i]), triple(center))
}

/// The grid is built and walks lead from all four edge midpoints to `center`.
pub open spec fn paths_valid(grid: NavGrid, config: GridConfig, center: GridPos) -> bool {
    &&& !grid_needs_build(grid)
    &&& layout_valid(grid_blocked(grid), grid_dims(grid), config, center)
}

/// Whether all four edge midpoints can reach the pile center.
pub fn validate_paths(grid: &NavGrid, config: &GridConfig, center: GridPos) -> (ok: bool)
    requires
        config.width >= 1,
        config.height >= 1,
        nav_side_fits(grid_dims(*grid).0),
        nav_side_fits(grid_dims(*grid).1),
        grid_dims(*grid).2 == 1,
    ensures
        ok == paths_valid(*grid, *config, center),
{
    let mids = [
        GridPos { x: 0, y: config.height / 2, z: 0 },
        GridPos { x: config.width - 1, y: config.height / 2, z: 0 },
        GridPos { x: config.width / 2, y: 0, z: 0 },
        GridPos { x: config.width / 2, y: config.height - 1, z: 0 },
    ];
    assert(mids@ =~= edge_midpoints(*config));
    let mut i: usize = 0;
    while i < 4
        invariant
            i <= 4,
            mids@ == edge_midpoints(*config),
            nav_side_fits(grid_dims(*grid).0),
            nav_side_fits(grid_dims(*grid).1),
            grid_dims(*grid).2 == 1,
            !grid_needs_build(*grid) || i == 0,
            forall|j: int|
                0 <= j < i ==> reaches(
                    grid_blocked(*grid),
                    grid_dims(*grid),
                    triple(#[trigger] edge_midpoints(*config)[j]),
                    triple(center),
                ),
        decreases 4 - i,
    {
        if !grid_astar_path_exists(grid, mids[i], center) {
            return false;
        }
        i = i + 1;
    }
    true
}

impl NavGrid {
    /// Whether the cell at `pos` is impassable (`false` outside the grid).
    pub fn is_blocked(&self, pos: GridPos) -> (b: bool)
        ensures
            b == (within(pos, grid_dims(*self)) && grid_blocked(*self).contains(triple(pos))),
    {
        grid_cell_blocked(self, pos)
    }

    /// Set the cell at `pos` passable or impassable; the grid must be
    /// rebuilt before the next path search.
    pub fn set_nav(&mut self, pos: GridPos, nav: NavKind)
        requires
            within(pos, grid_dims(*old(self))),
            nav_cost_ok(nav),
        ensures
            grid_dims(*final(self)) == grid_dims(*old(self)),
            grid_needs_build(*final(self)),
            grid_blocked(*final(self)) == match nav {
                NavKind::Passable(_) => grid_blocked(*old(self)).remove(triple(pos)),
                NavKind::Impassable => grid_blocked(*old(self)).insert(triple(pos)),
            },
    {
        grid_set_nav(self, pos, nav)
    }

    /// Rebuild the grid after its cells changed.
    pub fn rebuild(&mut self)
        ensures
            grid_dims(*final(self)) == grid_dims(*old(self)),
            grid_blocked(*final(self)) == grid_blocked(*old(self)),
            !grid_needs_build(*final(self)),
    {
        grid_build(self)
    }
}

} // verus!
