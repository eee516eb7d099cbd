//! Laying out terrain and obstacles: blocking clusters placed with path
//! validation, passable clusters after them, and the resulting terrain map.

use rand::rngs::SmallRng;
use vstd::prelude::*;

use crate::cellset::CellSet;
use crate::geom::{cell_in_grid, Cell, GridConfig, GridPos};
use crate::nav::{
    grid_blocked, grid_dims, grid_needs_build, layout_valid, nav_side_fits, paths_valid, NavGrid,
};
use crate::pile::{EdgeCells, PileState};
use crate::terrain::{
    grid_touched,
    build_exclusion_set, cell_triple, cells_of, cells_range, clusters_placed, exclusion_fits,
    generate_clusters, lemma_cells_range_contains, lemma_triples_range_contains, must_stay_clear,
    place_blocking_clusters, prefix_cells, triples_range, GrowthRoll, Terrain, TERRAIN_MAX_CLUSTER,
    TERRAIN_MIN_CLUSTER,
};
use crate::terrain_map::TerrainMap;

verus! {

/// How many clusters of each terrain kind to attempt.
#[derive(Clone, Copy, Debug, PartialEq, Eq)]
pub struct TerrainCounts {
    pub rubble: u32,
    pub puddle: u32,
    pub radioactive: u32,
}

/// Cells that must stay free of terrain and obstacles, as a set.
pub open spec fn clear_cells(config: GridConfig, center: GridPos, edges: Seq<GridPos>) -> Set<Cell> {
    Set::new(|c: Cell| must_stay_clear(c, config, center, edges))
}

/// Every cell of `cells` mapped to `kind`.
pub open spec fn kind_on(cells: Set<Cell>, kind: Terrain) -> Map<Cell, Terrain> {
    Map::new(|c: Cell| cells.contains(c), |c: Cell| kind)
}

/// The terrain map of rubble, puddle and radioactive clusters, later kinds
/// overriding earlier ones on a shared cell.
pub open spec fn clusters_map(
    rubble: Seq<Vec<Cell>>,
    puddle: Seq<Vec<Cell>>,
    radioactive: Seq<Vec<Cell>>,
) -> Map<Cell, Terrain> {
    kind_on(cells_of(rubble), Terrain::Rubble).union_prefer_right(
        kind_on(cells_of(puddle), Terrain::Puddle),
    ).union_prefer_right(kind_on(cells_of(radioactive), Terrain::Radioactive))
}

/// Grid cells holding rubble in `m`.
pub open spec fn rubble_triples(m: Map<Cell, Terrain>) -> Set<(u32, u32, u32)> {
    Set::new(
        |t: (u32, u32, u32)|
            exists|c: Cell| #[trigger] m.dom().contains(c) && m[c] == Terrain::Rubble && t == cell_triple(c),
    )
}

/// `m` holds some rubble.
pub open spec fn has_rubble(m: Map<Cell, Terrain>) -> bool {
    exists|c: Cell| #[trigger] m.dom().contains(c) && m[c] == Terrain::Rubble
}

/// `m` is made of at most `counts` clusters of each kind, placed in order
/// (rubble, puddle, radioactive), each kind avoiding the cells kept clear
/// and the cells of the kinds placed before it.
pub open spec fn terrain_layout(
    m: Map<Cell, Terrain>,
    rubble: Seq<Vec<Cell>>,
    puddle: Seq<Vec<Cell>>,
    radioactive: Seq<Vec<Cell>>,
    counts: TerrainCounts,
    clear: Set<Cell>,
    config: GridConfig,
) -> bool {
    &&& rubble.len() <= counts.rubble
    &&& puddle.len() <= counts.puddle
    &&& radioactive.len() <= counts.radioactive
    &&& clusters_placed(rubble, clear, config, TERRAIN_MAX_CLUSTER)
    &&& clusters_placed(puddle, clear.union(cells_of(rubble)), config, TERRAIN_MAX_CLUSTER)
    &&& clusters_placed(
        radioactive,
        clear.union(cells_of(rubble)).union(cells_of(puddle)),
        config,
        TERRAIN_MAX_CLUSTER,
    )
    &&& m == clusters_map(rubble, puddle, radioactive)
}

/// A run of blocking-cluster generation and path repair: `all` is what was
/// generated (at most `num` clusters placed on free cells, fewer only when a
/// seed search failed, which needs some occupied grid cell), and `kept` is
/// the longest prefix of `all` whose blocking, on top of `blocked0`, still
/// connects every edge midpoint to `center` (or nothing, when no prefix
/// does).
pub open spec fn blocking_run(
    all: Seq<Vec<Cell>>,
    kept: Seq<Vec<Cell>>,
    num: u32,
    before: Set<Cell>,
    config: GridConfig,
    max_size: u32,
    blocked0: Set<(u32, u32, u32)>,
    dims: (u32, u32, u32),
    center: GridPos,
) -> bool {
    let n = all.len() as int;
    &&& all.len() <= num
    &&& clusters_placed(all, before, config, max_size)
    &&& all.len() < num ==> grid_touched(before.union(cells_of(all)), config)
    &&& kept.len() <= all.len()
    &&& kept == all.take(kept.len() as int)
    &&& kept.len() > 0 ==> layout_valid(
        blocked0.union(triples_range(all, 0, n)).difference(triples_range(all, kept.len() as int, n)),
        dims,
        config,
        center,
    )
    &&& forall|j: int|
        kept.len() < j <= n ==> !layout_valid(
            blocked0.union(triples_range(all, 0, n)).difference(triples_range(all, j, n)),
            dims,
            config,
            center,
        )
}

/// A run of terrain generation: the map is laid out from the kept rubble
/// and the puddle and radioactive clusters; the kept rubble is the longest
/// connecting prefix of the rubble generated (`rubble_all`); and each kind
/// got fewer clusters than its count only when a seed search failed, which
/// needs some occupied grid cell.
pub open spec fn terrain_run(
    m: Map<Cell, Terrain>,
    rubble_all: Seq<Vec<Cell>>,
    rubble: Seq<Vec<Cell>>,
    puddle: Seq<Vec<Cell>>,
    radioactive: Seq<Vec<Cell>>,
    counts: TerrainCounts,
    clear: Set<Cell>,
    config: GridConfig,
    blocked0: Set<(u32, u32, u32)>,
    dims: (u32, u32, u32),
    center: GridPos,
) -> bool {
    &&& terrain_layout(m, rubble, puddle, radioactive, counts, clear, config)
    &&& blocking_run(rubble_all, rubble, counts.rubble, clear, config, TERRAIN_MAX_CLUSTER, blocked0, dims, center)
    &&& puddle.len() < counts.puddle ==> grid_touched(
        clear.union(cells_of(rubble)).union(cells_of(puddle)),
        config,
    )
    &&& radioactive.len() < counts.radioactive ==> grid_touched(
        clear.union(cells_of(rubble)).union(cells_of(puddle)).union(cells_of(radioactive)),
        config,
    )
}

/// Distinct in-grid cells sit on distinct grid cells.
pub proof fn lemma_cell_triple_injective(a: Cell, b: Cell, width: u32, height: u32)
    requires
        cell_in_grid(a, width, height),
        cell_in_grid(b, width, height),
        cell_triple(a) == cell_triple(b),
    ensures
        a == b,
{
}

/// A prefix of placed clusters is placed.
proof fn lemma_clusters_placed_prefix(all: Seq<Vec<Cell>>, k: int, before: Set<Cell>, config: GridConfig, max_size: u32)
    requires
        0 <= k <= all.len(),
        clusters_placed(all, before, config, max_size),
    ensures
        clusters_placed(all.take(k), before, config, max_size),
{
    let p = all.take(k);
    assert forall|i: int| 0 <= i < p.len() implies {
        &&& 1 <= (#[trigger] p[i]@).len() <= crate::terrain::size_cap(max_size)
        &&& p[i]@.no_duplicates()
        &&& forall|m: int|
            1 <= m < p[i]@.len() ==> crate::terrain::touches_prefix(p[i]@[m], p[i]@, m)
    } by {
        assert(p[i] == all[i]);
    }
    assert forall|i: int, m: int| 0 <= i < p.len() && 0 <= m < p[i]@.len() implies cell_in_grid(
        #[trigger] p[i]@[m],
        config.width,
        config.height,
    ) && !before.contains(p[i]@[m]) by {
        assert(p[i] == all[i]);
    }
    assert forall|i: int, j: int, c: Cell|
        0 <= i < p.len() && 0 <= j < p.len() && i != j && #[trigger] p[i]@.contains(c) implies !#[trigger] p[j]@.contains(
        c,
    ) by {
        assert(p[i] == all[i]);
        assert(p[j] == all[j]);
    }
}

/// Generate up to `num_clusters` blocking clusters on free cells, mark them
/// impassable, and drop clusters from the back until the edge midpoints
/// reach the pile center again (or none is left). The kept clusters are
/// marked occupied; dropped ones leave no trace on `occupied` or the grid.
fn generate_blocking_clusters<R: GrowthRoll>(
    num_clusters: u32,
    occupied: &mut CellSet,
    grid: &mut NavGrid,
    config: &GridConfig,
    center: GridPos,
    rng: &mut SmallRng,
    roll: &mut R,
    min_size: u32,
    max_size: u32,
) -> (r: (Vec<Vec<Cell>>, Ghost<Seq<Vec<Cell>>>))
    requires
        old(occupied).wf(),
        1 <= config.width <= i32::MAX,
        1 <= config.height <= i32::MAX,
        min_size <= max_size,
        nav_side_fits(config.width),
        nav_side_fits(config.height),
        grid_dims(*old(grid)) == (config.width, config.height, 1u32),
    ensures
        ({
            let (kept, all) = r;
            blocking_run(
                all@,
                kept@,
                num_clusters,
                old(occupied)@,
                *config,
                max_size,
                grid_blocked(*old(grid)),
                grid_dims(*old(grid)),
                center,
            )
        }),
        final(occupied).wf(),
        r.0@.len() <= num_clusters,
        clusters_placed(r.0@, old(occupied)@, *config, max_size),
        final(occupied)@ == old(occupied)@.union(cells_of(r.0@)),
        forall|i: int, k: int|
            0 <= i < r.0@.len() && 0 <= k < r.0@[i]@.len() ==> grid_blocked(*final(grid)).contains(
                cell_triple(#[trigger] r.0@[i]@[k]),
            ),
        forall|t: (u32, u32, u32)| #[trigger]
            grid_blocked(*final(grid)).contains(t) ==> grid_blocked(*old(grid)).contains(t) || exists|
                i: int,
                k: int,
            | 0 <= i < r.0@.len() && 0 <= k < r.0@[i]@.len() && t == cell_triple(#[trigger] r.0@[i]@[k]),
        r.0@.len() > 0 ==> paths_valid(*final(grid), *config, center),
        grid_dims(*final(grid)) == grid_dims(*old(grid)),
        !grid_needs_build(*final(grid)),
{
    let ghost occ0 = occupied@;
    let ghost blocked0 = grid_blocked(*grid);
    let clusters = generate_clusters(num_clusters, occupied, config, rng, roll, min_size, max_size);
    let ghost all = clusters@;
    let ghost n = clusters@.len() as int;
    let ghost occ1 = occupied@;
    let ghost grid_before = *grid;
    let kept = place_blocking_clusters(clusters, occupied, grid, config, center);
    proof {
        let k = kept@.len() as int;
        assert(kept@ =~= all.take(k));
        assert(grid_blocked(grid_before) == blocked0);
        if k > 0 {
            assert(paths_valid(*grid, *config, center));
        }
        lemma_clusters_placed_prefix(all, k, occ0, *config, max_size);
        // Kept cells stay blocked; nothing else became blocked.
        assert forall|i: int, m: int| 0 <= i < k && 0 <= m < kept@[i]@.len() implies grid_blocked(
            *grid,
        ).contains(cell_triple(#[trigger] kept@[i]@[m])) by {
            let c = kept@[i]@[m];
            assert(kept@[i] == all[i]);
            lemma_triples_range_contains(all, 0, n, cell_triple(c));
            lemma_triples_range_contains(all, k, n, cell_triple(c));
            if triples_range(all, k, n).contains(cell_triple(c)) {
                let (j, m2) = choose|j: int, m2: int|
                    k <= j < n && 0 <= m2 < all[j]@.len() && cell_triple(c) == cell_triple(#[trigger] all[j]@[m2]);
                lemma_cell_triple_injective(c, all[j]@[m2], config.width, config.height);
                assert(all[i]@.contains(c));
                assert(all[j]@.contains(c));
            }
        }
        assert forall|t: (u32, u32, u32)| #[trigger] grid_blocked(*grid).contains(t) implies blocked0.contains(t)
            || exists|i: int, m: int|
            0 <= i < k && 0 <= m < kept@[i]@.len() && t == cell_triple(#[trigger] kept@[i]@[m]) by {
            if !blocked0.contains(t) {
                lemma_triples_range_contains(all, 0, n, t);
                lemma_triples_range_contains(all, k, n, t);
                let (i, m) = choose|i: int, m: int|
                    0 <= i < n && 0 <= m < all[i]@.len() && t == cell_triple(#[trigger] all[i]@[m]);
                if i >= k {
                    assert(triples_range(all, k, n).contains(t));
                }
                assert(kept@[i] == all[i]);
                assert(t == cell_triple(kept@[i]@[m]));
            }
        }
        // Occupied cells: the earlier ones plus the kept clusters.
        assert forall|c: Cell| #[trigger] occupied@.contains(c) <==> occ0.union(cells_of(kept@)).contains(c) by {
            lemma_cells_range_contains(all, k, n, c);
            if occ0.contains(c) && cells_range(all, k, n).contains(c) {
                let j = choose|j: int| k <= j < n && #[trigger] all[j]@.contains(c);
                let m = choose|m: int| 0 <= m < all[j]@.len() && all[j]@[m] == c;
                assert(!occ0.contains(all[j]@[m]));
            }
            if cells_of(all).contains(c) && !cells_range(all, k, n).contains(c) {
                let i = choose|i: int| 0 <= i < n && (#[trigger] all[i]@).contains(c);
                if i >= k {
                    assert(k <= i < n && all[i]@.contains(c));
                }
                assert(kept@[i] == all[i]);
                assert(cells_of(kept@).contains(c));
            }
            if cells_of(kept@).contains(c) {
                let i = choose|i: int| 0 <= i < k && (#[trigger] kept@[i]@).contains(c);
                assert(kept@[i] == all[i]);
                assert(cells_of(all).contains(c));
                if cells_range(all, k, n).contains(c) {
                    let j = choose|j: int| k <= j < n && #[trigger] all[j]@.contains(c);
                    assert(all[i]@.contains(c));
                    assert(false);
                }
            }
        }
        assert(occupied@ =~= occ0.union(cells_of(kept@)));
    }
    (kept, Ghost(all))
}

/// Lay out obstacle clusters: up to `num_clusters` clusters grown toward a
/// random size in `[min_size, max_size]` on cells outside the exclusion
/// set, marked impassable, with clusters dropped from the back until every
/// edge midpoint reaches the pile center again. Returns the kept clusters.
pub fn generate_obstacles<R: GrowthRoll>(
    config: &GridConfig,
    pile_state: &PileState,
    edge_cells: &EdgeCells,
    grid: &mut NavGrid,
    rng: &mut SmallRng,
    roll: &mut R,
    num_clusters: u32,
    min_size: u32,
    max_size: u32,
) -> (kept: Vec<Vec<Cell>>)
    requires
        1 <= config.width <= i32::MAX,
        1 <= config.height <= i32::MAX,
        min_size <= max_size,
        exclusion_fits(pile_state.center, edge_cells.0@),
        nav_side_fits(config.width),
        nav_side_fits(config.height),
        grid_dims(*old(grid)) == (config.width, config.height, 1u32),
    ensures
        kept@.len() <= num_clusters,
        clusters_placed(kept@, clear_cells(*config, pile_state.center, edge_cells.0@), *config, max_size),
        triples_range(kept@, 0, kept@.len() as int).subset_of(grid_blocked(*final(grid))),
        grid_blocked(*final(grid)).subset_of(
            grid_blocked(*old(grid)).union(triples_range(kept@, 0, kept@.len() as int)),
        ),
        kept@.len() > 0 ==> paths_valid(*final(grid), *config, pile_state.center),
        exists|all: Seq<Vec<Cell>>| #[trigger]
            blocking_run(
                all,
                kept@,
                num_clusters,
                clear_cells(*config, pile_state.center, edge_cells.0@),
                *config,
                max_size,
                grid_blocked(*old(grid)),
                grid_dims(*old(grid)),
                pile_state.center,
            ),
        grid_dims(*final(grid)) == grid_dims(*old(grid)),
        !grid_needs_build(*final(grid)),
{
    let excluded = build_exclusion_set(config, pile_state, edge_cells);
    let mut occupied = excluded.duplicate();
    assert(occupied@ =~= clear_cells(*config, pile_state.center, edge_cells.0@));
    let (kept, all) = generate_blocking_clusters(
        num_clusters,
        &mut occupied,
        grid,
        config,
        pile_state.center,
        rng,
        roll,
        min_size,
        max_size,
    );
    proof {
        assert(blocking_run(
            all@,
            kept@,
            num_clusters,
            clear_cells(*config, pile_state.center, edge_cells.0@),
            *config,
            max_size,
            grid_blocked(*old(grid)),
            grid_dims(*old(grid)),
            pile_state.center,
        ));
        let k = kept@.len() as int;
        assert forall|t: (u32, u32, u32)| triples_range(kept@, 0, k).contains(t) implies grid_blocked(
            *grid,
        ).contains(t) by {
            lemma_triples_range_contains(kept@, 0, k, t);
            let (i, m) = choose|i: int, m: int|
                0 <= i < k && 0 <= m < kept@[i]@.len() && t == cell_triple(#[trigger] kept@[i]@[m]);
            assert(grid_blocked(*grid).contains(cell_triple(kept@[i]@[m])));
        }
        assert forall|t: (u32, u32, u32)| grid_blocked(*grid).contains(t) implies grid_blocked(*old(grid)).union(
            triples_range(kept@, 0, k),
        ).contains(t) by {
            lemma_triples_range_contains(kept@, 0, k, t);
        }
    }
    kept
}

/// Record every cell of `clusters` as `kind`.
fn mark_clusters(map: &mut TerrainMap, clusters: &Vec<Vec<Cell>>, kind: Terrain)
    requires
        old(map).wf(),
    ensures
        final(map).wf(),
        final(map)@ == old(map)@.union_prefer_right(kind_on(cells_of(clusters@), kind)),
{
    let ghost start = map@;
    let mut i: usize = 0;
    assert(start.union_prefer_right(kind_on(cells_of(clusters@.take(0)), kind)) =~= start);
    while i < clusters.len()
        invariant
            map.wf(),
            i <= clusters@.len(),
            map@ == start.union_prefer_right(kind_on(cells_of(clusters@.take(i as int)), kind)),
        decreases clusters@.len() - i,
    {
        let cluster = &clusters[i];
        let ghost done = cells_of(clusters@.take(i as int));
        let mut k: usize = 0;
        assert(done.union(prefix_cells(cluster@, 0)) =~= done);
        while k < cluster.len()
            invariant
                map.wf(),
                i < clusters@.len(),
                cluster == clusters@[i as int],
                k <= cluster@.len(),
                done == cells_of(clusters@.take(i as int)),
                map@ == start.union_prefer_right(kind_on(done.union(prefix_cells(cluster@, k as int)), kind)),
            decreases cluster@.len() - k,
        {
            map.insert(cluster[k], kind);
            proof {
                crate::terrain::lemma_prefix_cells_step(cluster@, k as int);
                assert(map@ =~= start.union_prefer_right(
                    kind_on(done.union(prefix_cells(cluster@, k + 1)), kind),
                ));
            }
            k = k + 1;
        }
        proof {
            let next = clusters@.take(i + 1);
            assert forall|c: Cell| #[trigger] cells_of(next).contains(c) <==> done.union(
                prefix_cells(cluster@, cluster@.len() as int),
            ).contains(c) by {
                if cells_of(next).contains(c) {
                    let j = choose|j: int| 0 <= j < next.len() && (#[trigger] next[j]@).contains(c);
                    if j < i {
                        assert(clusters@.take(i as int)[j] == next[j]);
                        assert(done.contains(c));
                    } else {
                        let m = choose|m: int| 0 <= m < cluster@.len() && cluster@[m] == c;
                        assert(prefix_cells(cluster@, cluster@.len() as int).contains(c));
                    }
                }
                if done.contains(c) {
                    let j = choose|j: int| 0 <= j < i && (#[trigger] clusters@.take(i as int)[j]@).contains(c);
                    assert(next[j] == clusters@.take(i as int)[j]);
                }
                if prefix_cells(cluster@, cluster@.len() as int).contains(c) {
                    let m = choose|m: int| 0 <= m < cluster@.len() && cluster@[m] == c;
                    assert(next[i as int] == cluster);
                    assert(next[i as int]@.contains(c));
                }
            }
            assert(cells_of(next) =~= done.union(prefix_cells(cluster@, cluster@.len() as int)));
        }
        i = i + 1;
    }
    assert(clusters@.take(i as int) =~= clusters@);
}

/// The terrain map of the given clusters: rubble first, then puddles, then
/// radioactive cells, a later kind replacing an earlier one on a shared cell.
pub fn terrain_map_from_clusters(
    rubble: &Vec<Vec<Cell>>,
    puddle: &Vec<Vec<Cell>>,
    radioactive: &Vec<Vec<Cell>>,
) -> (map: TerrainMap)
    ensures
        map.wf(),
        map@ == clusters_map(rubble@, puddle@, radioactive@),
{
    let mut map = TerrainMap::new();
    mark_clusters(&mut map, rubble, Terrain::Rubble);
    assert(Map::<Cell, Terrain>::empty().union_prefer_right(kind_on(cells_of(rubble@), Terrain::Rubble))
        =~= kind_on(cells_of(rubble@), Terrain::Rubble));
    mark_clusters(&mut map, puddle, Terrain::Puddle);
    mark_clusters(&mut map, radioactive, Terrain::Radioactive);
    map
}

/// Facts of a terrain layout: its cells lie in the grid outside the clear
/// cells, and a cell holds rubble exactly when a rubble cluster has it.
pub proof fn lemma_terrain_layout_cells(
    m: Map<Cell, Terrain>,
    rubble: Seq<Vec<Cell>>,
    puddle: Seq<Vec<Cell>>,
    radioactive: Seq<Vec<Cell>>,
    counts: TerrainCounts,
    clear: Set<Cell>,
    config: GridConfig,
)
    requires
        terrain_layout(m, rubble, puddle, radioactive, counts, clear, config),
    ensures
        forall|c: Cell| #[trigger]
            m.dom().contains(c) ==> cell_in_grid(c, config.width, config.height) && !clear.contains(c),
        forall|c: Cell| #[trigger] cells_of(rubble).contains(c) <==> (m.dom().contains(c) && m[c] == Terrain::Rubble),
{
    assert forall|c: Cell| #[trigger] m.dom().contains(c) implies cell_in_grid(c, config.width, config.height)
        && !clear.contains(c) by {
        if cells_of(rubble).contains(c) {
            let i = choose|i: int| 0 <= i < rubble.len() && (#[trigger] rubble[i]@).contains(c);
            let k = choose|k: int| 0 <= k < rubble[i]@.len() && rubble[i]@[k] == c;
            assert(cell_in_grid(rubble[i]@[k], config.width, config.height) && !clear.contains(rubble[i]@[k]));
        } else if cells_of(puddle).contains(c) {
            let i = choose|i: int| 0 <= i < puddle.len() && (#[trigger] puddle[i]@).contains(c);
            let k = choose|k: int| 0 <= k < puddle[i]@.len() && puddle[i]@[k] == c;
            assert(cell_in_grid(puddle[i]@[k], config.width, config.height) && !clear.union(
                cells_of(rubble),
            ).contains(puddle[i]@[k]));
        } else {
            let i = choose|i: int| 0 <= i < radioactive.len() && (#[trigger] radioactive[i]@).contains(c);
            let k = choose|k: int| 0 <= k < radioactive[i]@.len() && radioactive[i]@[k] == c;
            assert(cell_in_grid(radioactive[i]@[k], config.width, config.height) && !clear.union(
                cells_of(rubble),
            ).union(cells_of(puddle)).contains(radioactive[i]@[k]));
        }
    }
    assert forall|c: Cell| #[trigger] cells_of(rubble).contains(c) <==> (m.dom().contains(c) && m[c]
        == Terrain::Rubble) by {
        if cells_of(puddle).contains(c) {
            let i = choose|i: int| 0 <= i < puddle.len() && (#[trigger] puddle[i]@).contains(c);
            let k = choose|k: int| 0 <= k < puddle[i]@.len() && puddle[i]@[k] == c;
            assert(!clear.union(cells_of(rubble)).contains(puddle[i]@[k]));
        }
        if cells_of(radioactive).contains(c) {
            let i = choose|i: int| 0 <= i < radioactive.len() && (#[trigger] radioactive[i]@).contains(c);
            let k = choose|k: int| 0 <= k < radioactive[i]@.len() && radioactive[i]@[k] == c;
            assert(!clear.union(cells_of(rubble)).union(cells_of(puddle)).contains(radioactive[i]@[k]));
        }
    }
}

/// Generate the terrain of a run: rubble clusters first, marked impassable
/// and dropped from the back until every edge midpoint reaches the pile
/// center again; then puddle and radioactive clusters on the cells still
/// free. Each cluster grows toward a random size in
/// `[TERRAIN_MIN_CLUSTER, TERRAIN_MAX_CLUSTER]` outside the exclusion set.
/// On the grid only kept rubble ends up impassable.
pub fn build_terrain_map<R: GrowthRoll>(
    config: &GridConfig,
    pile_state: &PileState,
    edge_cells: &EdgeCells,
    grid: &mut NavGrid,
    rng: &mut SmallRng,
    roll: &mut R,
    counts: TerrainCounts,
) -> (map: TerrainMap)
    requires
        1 <= config.width <= i32::MAX,
        1 <= config.height <= i32::MAX,
        exclusion_fits(pile_state.center, edge_cells.0@),
        nav_side_fits(config.width),
        nav_side_fits(config.height),
        grid_dims(*old(grid)) == (config.width, config.height, 1u32),
    ensures
        map.wf(),
        exists|r: Seq<Vec<Cell>>, p: Seq<Vec<Cell>>, q: Seq<Vec<Cell>>| #[trigger]
            terrain_layout(
                map@,
                r,
                p,
                q,
                counts,
                clear_cells(*config, pile_state.center, edge_cells.0@),
                *config,
            ),
        exists|ra: Seq<Vec<Cell>>, r: Seq<Vec<Cell>>, p: Seq<Vec<Cell>>, q: Seq<Vec<Cell>>| #[trigger]
            terrain_run(
                map@,
                ra,
                r,
                p,
                q,
                counts,
                clear_cells(*config, pile_state.center, edge_cells.0@),
                *config,
                grid_blocked(*old(grid)),
                grid_dims(*old(grid)),
                pile_state.center,
            ),
        forall|c: Cell| #[trigger]
            map@.dom().contains(c) ==> cell_in_grid(c, config.width, config.height) && !must_stay_clear(
                c,
                *config,
                pile_state.center,
                edge_cells.0@,
            ),
        forall|c: Cell| #[trigger]
            map@.dom().contains(c) && map@[c] == Terrain::Rubble ==> grid_blocked(*final(grid)).contains(
                cell_triple(c),
            ),
        forall|c: Cell| #[trigger]
            map@.dom().contains(c) && map@[c] != Terrain::Rubble && grid_blocked(*final(grid)).contains(
                cell_triple(c),
            ) ==> grid_blocked(*old(grid)).contains(cell_triple(c)),
        grid_blocked(*final(grid)).subset_of(grid_blocked(*old(grid)).union(rubble_triples(map@))),
        grid_blocked(*old(grid)).is_empty() ==> grid_blocked(*final(grid)) == rubble_triples(map@),
        has_rubble(map@) ==> paths_valid(*final(grid), *config, pile_state.center),
        grid_dims(*final(grid)) == grid_dims(*old(grid)),
        !grid_needs_build(*final(grid)),
{
    let ghost clear = clear_cells(*config, pile_state.center, edge_cells.0@);
    let excluded = build_exclusion_set(config, pile_state, edge_cells);
    let mut occupied = excluded.duplicate();
    assert(occupied@ =~= clear);
    let (rubble, rubble_all) = generate_blocking_clusters(
        counts.rubble,
        &mut occupied,
        grid,
        config,
        pile_state.center,
        rng,
        roll,
        TERRAIN_MIN_CLUSTER,
        TERRAIN_MAX_CLUSTER,
    );
    let puddle = generate_clusters(
        counts.puddle,
        &mut occupied,
        config,
        rng,
        roll,
        TERRAIN_MIN_CLUSTER,
        TERRAIN_MAX_CLUSTER,
    );
    let radioactive = generate_clusters(
        counts.radioactive,
        &mut occupied,
        config,
        rng,
        roll,
        TERRAIN_MIN_CLUSTER,
        TERRAIN_MAX_CLUSTER,
    );
    let map = terrain_map_from_clusters(&rubble, &puddle, &radioactive);
    proof {
        let m = map@;
        let blocked0 = grid_blocked(*old(grid));
        let blocked = grid_blocked(*grid);
        assert(terrain_layout(m, rubble@, puddle@, radioactive@, counts, clear, *config));
        assert(terrain_run(
            m,
            rubble_all@,
            rubble@,
            puddle@,
            radioactive@,
            counts,
            clear,
            *config,
            blocked0,
            grid_dims(*old(grid)),
            pile_state.center,
        ));
        lemma_terrain_layout_cells(m, rubble@, puddle@, radioactive@, counts, clear, *config);
        assert forall|c: Cell| #[trigger] m.dom().contains(c) && m[c] == Terrain::Rubble implies blocked.contains(
            cell_triple(c),
        ) by {
            assert(cells_of(rubble@).contains(c));
            let i = choose|i: int| 0 <= i < rubble@.len() && (#[trigger] rubble@[i]@).contains(c);
            let k = choose|k: int| 0 <= k < rubble@[i]@.len() && rubble@[i]@[k] == c;
            assert(blocked.contains(cell_triple(rubble@[i]@[k])));
        }
        assert forall|t: (u32, u32, u32)| #[trigger] blocked.contains(t) && !blocked0.contains(t) implies rubble_triples(
            m,
        ).contains(t) && exists|d: Cell| cells_of(rubble@).contains(d) && t == cell_triple(d) by {
            let (i, k) = choose|i: int, k: int|
                0 <= i < rubble@.len() && 0 <= k < rubble@[i]@.len() && t == cell_triple(#[trigger] rubble@[i]@[k]);
            let d = rubble@[i]@[k];
            assert(rubble@[i]@.contains(d));
            assert(cells_of(rubble@).contains(d));
            assert(m.dom().contains(d) && m[d] == Terrain::Rubble);
        }
        assert forall|c: Cell| #[trigger] m.dom().contains(c) && m[c] != Terrain::Rubble && blocked.contains(
            cell_triple(c),
        ) implies blocked0.contains(cell_triple(c)) by {
            if !blocked0.contains(cell_triple(c)) {
                let d = choose|d: Cell| cells_of(rubble@).contains(d) && cell_triple(c) == cell_triple(d);
                assert(m.dom().contains(d));
                crate::placement::lemma_cell_triple_injective(c, d, config.width, config.height);
            }
        }
        assert forall|t: (u32, u32, u32)| blocked.contains(t) implies blocked0.union(rubble_triples(m)).contains(
            t,
        ) by {
            if !blocked0.contains(t) {
                assert(blocked.contains(t) && !blocked0.contains(t));
            }
        }
        if blocked0.is_empty() {
            assert forall|t: (u32, u32, u32)| #[trigger] rubble_triples(m).contains(t) implies blocked.contains(t) by {
                let c = choose|c: Cell| #[trigger] m.dom().contains(c) && m[c] == Terrain::Rubble && t == cell_triple(c);
                assert(blocked.contains(cell_triple(c)));
            }
            assert forall|t: (u32, u32, u32)| blocked.contains(t) implies #[trigger] rubble_triples(m).contains(t) by {
                assert(!blocked0.contains(t));
                assert(blocked.contains(t) && !blocked0.contains(t));
            }
            assert(blocked =~= rubble_triples(m));
        }
        if has_rubble(m) {
            let c = choose|c: Cell| #[trigger] m.dom().contains(c) && m[c] == Terrain::Rubble;
            assert(cells_of(rubble@).contains(c));
        }
        assert forall|c: Cell| #[trigger] m.dom().contains(c) implies !must_stay_clear(
            c,
            *config,
            pile_state.center,
            edge_cells.0@,
        ) by {
            assert(!clear.contains(c));
        }
    }
    map
}

/// Path repair keeps the longest connecting prefix: no longer prefix of the
/// generated clusters connects every edge midpoint to the center, and the
/// kept prefix does whenever it is not empty.
pub proof fn lemma_blocking_keeps_longest_prefix(
    all: Seq<Vec<Cell>>,
    kept: Seq<Vec<Cell>>,
    num: u32,
    before: Set<Cell>,
    config: GridConfig,
    max_size: u32,
    blocked0: Set<(u32, u32, u32)>,
    dims: (u32, u32, u32),
    center: GridPos,
    j: int,
)
    requires
        blocking_run(all, kept, num, before, config, max_size, blocked0, dims, center),
        0 < j <= all.len(),
        layout_valid(
            blocked0.union(triples_range(all, 0, all.len() as int)).difference(
                triples_range(all, j, all.len() as int),
            ),
            dims,
            config,
            center,
        ),
    ensures
        j <= kept.len(),
        kept == all.take(kept.len() as int),
{
}

/// On a grid with no cell excluded or occupied beforehand, asking for some
/// clusters generates at least one; and when that first cluster alone
/// leaves every edge midpoint connected to the center, at least one
/// cluster is kept.
pub proof fn lemma_open_grid_keeps_a_cluster(
    all: Seq<Vec<Cell>>,
    kept: Seq<Vec<Cell>>,
    num: u32,
    before: Set<Cell>,
    config: GridConfig,
    max_size: u32,
    blocked0: Set<(u32, u32, u32)>,
    dims: (u32, u32, u32),
    center: GridPos,
)
    requires
        blocking_run(all, kept, num, before, config, max_size, blocked0, dims, center),
        num > 0,
        !grid_touched(before, config),
    ensures
        all.len() >= 1,
        layout_valid(
            blocked0.union(triples_range(all, 0, all.len() as int)).difference(
                triples_range(all, 1, all.len() as int),
            ),
            dims,
            config,
            center,
        ) ==> kept.len() >= 1,
{
    if all.len() == 0 {
        assert(cells_of(all) =~= Set::<Cell>::empty());
        assert(before.union(cells_of(all)) =~= before);
    }
}

/// Terrain generation asks for every cluster of each kind: on a grid with
/// nothing kept clear, each kind with a positive count gets at least one
/// generated cluster (rubble before path repair, puddles and radioactive
/// cells outright), and rubble is dropped only while a longer prefix would
/// cut an edge midpoint off the pile.
pub proof fn lemma_terrain_counts_honoured(
    m: Map<Cell, Terrain>,
    rubble_all: Seq<Vec<Cell>>,
    rubble: Seq<Vec<Cell>>,
    puddle: Seq<Vec<Cell>>,
    radioactive: Seq<Vec<Cell>>,
    counts: TerrainCounts,
    clear: Set<Cell>,
    config: GridConfig,
    blocked0: Set<(u32, u32, u32)>,
    dims: (u32, u32, u32),
    center: GridPos,
)
    requires
        terrain_run(m, rubble_all, rubble, puddle, radioactive, counts, clear, config, blocked0, dims, center),
        !grid_touched(clear, config),
    ensures
        counts.rubble > 0 ==> rubble_all.len() >= 1,
        counts.puddle > 0 && rubble.len() == 0 ==> puddle.len() >= 1,
        counts.radioactive > 0 && rubble.len() == 0 && puddle.len() == 0 ==> radioactive.len() >= 1,
        forall|j: int|
            0 < j <= rubble_all.len() && #[trigger] layout_valid(
                blocked0.union(triples_range(rubble_all, 0, rubble_all.len() as int)).difference(
                    triples_range(rubble_all, j, rubble_all.len() as int),
                ),
                dims,
                config,
                center,
            ) ==> j <= rubble.len(),
{
    if counts.rubble > 0 && rubble_all.len() == 0 {
        assert(clear.union(cells_of(rubble_all)) =~= clear);
    }
    let e = Seq::<Vec<Cell>>::empty();
    assert(cells_of(e) =~= Set::<Cell>::empty());
    if counts.puddle > 0 && rubble.len() == 0 && puddle.len() == 0 {
        assert(cells_of(rubble) =~= Set::<Cell>::empty());
        assert(cells_of(puddle) =~= Set::<Cell>::empty());
        assert(clear.union(cells_of(rubble)).union(cells_of(puddle)) =~= clear);
    }
    if counts.radioactive > 0 && rubble.len() == 0 && puddle.len() == 0 && radioactive.len() == 0 {
        assert(cells_of(rubble) =~= Set::<Cell>::empty());
        assert(cells_of(puddle) =~= Set::<Cell>::empty());
        assert(cells_of(radioactive) =~= Set::<Cell>::empty());
        assert(clear.union(cells_of(rubble)).union(cells_of(puddle)).union(cells_of(radioactive)) =~= clear);
    }
}

} // verus!
