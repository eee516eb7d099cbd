//! The central scrap pile: its footprint on the grid, the map's edge cells,
//! and the nearest-cell searches enemies use to pick their goals.

use vstd::prelude::*;

use crate::geom::{dist_key, dist_key_fits, distance_key, distance_key_fits, on_border, GridConfig, GridPos};
use crate::states::GameMode;

verus! {

/// Scrap in the pile at the start of a classic run.
pub const STARTING_SCRAP: u32 = 250;

/// Scrap in the pile at the start of an endless run.
pub const ENDLESS_STARTING_SCRAP: u32 = 400;

/// Scrap currently held in the pile.
pub struct PileScrap {
    pub amount: u32,
}

/// The pile's footprint: the grid cells it covers, its center, and the
/// integer radius (in tiles) the footprint was last computed for.
pub struct PileState {
    pub cells: Vec<GridPos>,
    pub center: GridPos,
    /// Cached integer radius to throttle recalculations.
    pub last_radius_int: u32,
}

/// All cells on the map border, computed once per run.
pub struct EdgeCells(pub Vec<GridPos>);

/// Scrap the pile starts with in the given mode.
pub fn starting_scrap(mode: GameMode) -> (scrap: u32)
    ensures
        scrap == (match mode {
            GameMode::Classic => STARTING_SCRAP,
            GameMode::Endless => ENDLESS_STARTING_SCRAP,
        }),
{
    match mode {
        GameMode::Classic => STARTING_SCRAP,
        GameMode::Endless => ENDLESS_STARTING_SCRAP,
    }
}

/// Scrap a pile starts with in the given mode.
pub open spec fn starting_scrap_for(mode: GameMode) -> u32 {
    match mode {
        GameMode::Classic => STARTING_SCRAP,
        GameMode::Endless => ENDLESS_STARTING_SCRAP,
    }
}

// ---------------------------------------------------------------------------
// Pile footprint
// ---------------------------------------------------------------------------

/// `n - 1`, or 0 when `n` is 0.
pub open spec fn sat_dec(n: u32) -> int {
    if n == 0 {
        0
    } else {
        n - 1
    }
}

/// Squared gap between two coordinates.
pub open spec fn sq_gap(a: u32, b: u32) -> int {
    (a - b) * (a - b)
}

/// Whether `c` belongs to the pile footprint: a grid cell on layer 0 within
/// the clamped grid range whose squared distance to `center` is at most
/// `radius_sq` (the floor of the squared radius in tiles).
pub open spec fn in_footprint(c: GridPos, center: GridPos, radius_sq: u64, width: u32, height: u32) -> bool {
    &&& c.z == 0
    &&& c.x <= sat_dec(width)
    &&& c.y <= sat_dec(height)
    &&& sq_gap(c.x, center.x) + sq_gap(c.y, center.y) <= radius_sq
}

fn square_gap(a: u32, b: u32) -> (s: u128)
    ensures
        s as int == sq_gap(a, b),
        s <= 0xffff_ffff * 0xffff_ffff,
{
    let d: u32 = if a >= b {
        a - b
    } else {
        b - a
    };
    proof {
        assert((b - a) * (b - a) == (a - b) * (a - b)) by (nonlinear_arith);
        assert(d * d <= 0xffff_ffff * 0xffff_ffff) by (nonlinear_arith)
            requires
                0 <= d <= 0xffff_ffff,
        ;
    }
    (d as u128) * (d as u128)
}

proof fn lemma_sq_gap_nonneg(a: u32, b: u32)
    ensures
        sq_gap(a, b) >= 0,
{
    assert((a - b) * (a - b) >= 0) by (nonlinear_arith);
}

/// Grid cells covered by a circular pile of squared radius `radius_sq`
/// around `center`, clamped to the grid. Each covered cell appears once.
pub fn compute_pile_cells(center: GridPos, radius_sq: u64, width: u32, height: u32) -> (cells: Vec<GridPos>)
    ensures
        cells@.no_duplicates(),
        forall|c: GridPos| #[trigger] cells@.contains(c) <==> in_footprint(c, center, radius_sq, width, height),
{
    let max_x: u32 = if width == 0 {
        0
    } else {
        width - 1
    };
    let max_y: u32 = if height == 0 {
        0
    } else {
        height - 1
    };
    let mut cells: Vec<GridPos> = Vec::new();
    let mut x: u64 = 0;
    while x <= max_x as u64
        invariant
            max_x == sat_dec(width),
            max_y == sat_dec(height),
            x <= max_x + 1,
            cells@.no_duplicates(),
            forall|c: GridPos| #[trigger]
                cells@.contains(c) <==> (in_footprint(c, center, radius_sq, width, height) && c.x
                    < x),
        decreases max_x + 1 - x,
    {
        let xi: u32 = x as u32;
        let gx = square_gap(xi, center.x);
        if gx <= radius_sq as u128 {
            let mut y: u64 = 0;
            while y <= max_y as u64
                invariant
                    max_x == sat_dec(width),
                    max_y == sat_dec(height),
                    xi == x,
                    x <= max_x,
                    y <= max_y + 1,
                    gx as int == sq_gap(xi, center.x),
                    gx <= 0xffff_ffff * 0xffff_ffff,
                    cells@.no_duplicates(),
                    forall|c: GridPos| #[trigger]
                        cells@.contains(c) <==> (in_footprint(c, center, radius_sq, width, height)
                            && (c.x < xi || (c.x == xi && c.y < y))),
                decreases max_y + 1 - y,
            {
                let yi: u32 = y as u32;
                let gy = square_gap(yi, center.y);
                let ghost old_cells = cells@;
                if gx + gy <= radius_sq as u128 {
                    let p = GridPos { x: xi, y: yi, z: 0 };
                    assert(!old_cells.contains(p));
                    cells.push(p);
                    assert forall|c: GridPos| #[trigger]
                        cells@.contains(c) <==> (in_footprint(c, center, radius_sq, width, height)
                            && (c.x < xi || (c.x == xi && c.y < y + 1))) by {
                        if c == p {
                            assert(cells@[cells@.len() - 1] == p);
                        } else {
                            if cells@.contains(c) {
                                let k = choose|k: int| 0 <= k < cells@.len() && cells@[k] == c;
                                assert(old_cells[k] == c);
                            }
                            if old_cells.contains(c) {
                                let k = choose|k: int| 0 <= k < old_cells.len() && old_cells[k] == c;
                                assert(cells@[k] == c);
                            }
                        }
                    }
                    assert(cells@.no_duplicates()) by {
                        assert forall|i: int, j: int|
                            0 <= i < cells@.len() && 0 <= j < cells@.len() && i != j implies cells@[i]
                            != cells@[j] by {
                            if i == cells@.len() - 1 {
                                assert(old_cells[j] == cells@[j]);
                            } else if j == cells@.len() - 1 {
                                assert(old_cells[i] == cells@[i]);
                            } else {
                                assert(old_cells[i] == cells@[i]);
                                assert(old_cells[j] == cells@[j]);
                            }
                        }
                    }
                } else {
                    assert forall|c: GridPos| #[trigger]
                        cells@.contains(c) <==> (in_footprint(c, center, radius_sq, width, height)
                            && (c.x < xi || (c.x == xi && c.y < y + 1))) by {
                        if c.x == xi && c.y == yi {
                            assert(!in_footprint(c, center, radius_sq, width, height));
                        }
                    }
                }
                y = y + 1;
            }
            assert forall|c: GridPos| #[trigger]
                cells@.contains(c) <==> (in_footprint(c, center, radius_sq, width, height) && c.x < x
                    + 1) by {
                if c.x == xi && in_footprint(c, center, radius_sq, width, height) {
                    assert(c.y <= max_y);
                }
            }
        } else {
            assert forall|c: GridPos| #[trigger]
                cells@.contains(c) <==> (in_footprint(c, center, radius_sq, width, height) && c.x < x
                    + 1) by {
                if c.x == xi {
                    lemma_sq_gap_nonneg(c.y, center.y);
                    assert(!in_footprint(c, center, radius_sq, width, height));
                }
            }
        }
        x = x + 1;
    }
    cells
}

/// Radius-throttled refresh of the pile footprint. When the integer radius
/// is unchanged and the footprint is non-empty, nothing changes and `false`
/// is returned; otherwise the cached radius and the footprint are recomputed
/// and `true` is returned.
pub fn update_pile_state(
    pile_state: &mut PileState,
    new_radius_int: u32,
    radius_sq: u64,
    width: u32,
    height: u32,
) -> (recomputed: bool)
    ensures
        recomputed == !(new_radius_int == old(pile_state).last_radius_int
            && old(pile_state).cells@.len() > 0),
        final(pile_state).center == old(pile_state).center,
        !recomputed ==> final(pile_state).cells@ == old(pile_state).cells@
            && final(pile_state).last_radius_int == old(pile_state).last_radius_int,
        recomputed ==> final(pile_state).last_radius_int == new_radius_int
            && final(pile_state).cells@.no_duplicates()
            && forall|c: GridPos| #[trigger]
                final(pile_state).cells@.contains(c) <==> in_footprint(
                c,
                old(pile_state).center,
                radius_sq,
                width,
                height,
            ),
{
    if new_radius_int == pile_state.last_radius_int && pile_state.cells.len() > 0 {
        return false;
    }
    pile_state.last_radius_int = new_radius_int;
    pile_state.cells = compute_pile_cells(pile_state.center, radius_sq, width, height);
    true
}

/// A larger squared radius never removes a cell from the footprint.
pub proof fn lemma_footprint_monotone(
    c: GridPos,
    center: GridPos,
    r1: u64,
    r2: u64,
    width: u32,
    height: u32,
)
    requires
        r1 <= r2,
        in_footprint(c, center, r1, width, height),
    ensures
        in_footprint(c, center, r2, width, height),
{
}

/// With radius 0 the footprint is exactly the center cell, when the center
/// lies on layer 0 inside the grid.
pub proof fn lemma_footprint_radius_zero(c: GridPos, center: GridPos, width: u32, height: u32)
    requires
        center.z == 0,
        center.x < width,
        center.y < height,
    ensures
        in_footprint(c, center, 0, width, height) <==> c == center,
{
    lemma_sq_gap_nonneg(c.x, center.x);
    lemma_sq_gap_nonneg(c.y, center.y);
    if in_footprint(c, center, 0, width, height) {
        assert((c.x - center.x) * (c.x - center.x) == 0);
        assert(c.x - center.x == 0) by (nonlinear_arith)
            requires
                (c.x - center.x) * (c.x - center.x) == 0,
        ;
        assert(c.y - center.y == 0) by (nonlinear_arith)
            requires
                (c.y - center.y) * (c.y - center.y) == 0,
        ;
        assert(c == center);
    }
    if c == center {
        assert(c.x - center.x == 0);
        assert(c.y - center.y == 0);
        assert(sq_gap(c.x, center.x) == 0) by (nonlinear_arith)
            requires
                c.x - center.x == 0,
        ;
        assert(sq_gap(c.y, center.y) == 0) by (nonlinear_arith)
            requires
                c.y - center.y == 0,
        ;
        assert(in_footprint(c, center, 0, width, height));
    }
}

// ---------------------------------------------------------------------------
// Edge cells
// ---------------------------------------------------------------------------

/// Top and bottom border cells for the first `n` columns, interleaved:
/// `(x, 0), (x, height - 1)` for each `x < n`.
pub open spec fn edge_rows(height: u32, n: nat) -> Seq<GridPos> {
    Seq::new(
        2 * n,
        |i: int|
            if i % 2 == 0 {
                GridPos { x: (i / 2) as u32, y: 0, z: 0 }
            } else {
                GridPos { x: (i / 2) as u32, y: (height - 1) as u32, z: 0 }
            },
    )
}

/// Left and right border cells for the first `n` inner rows, interleaved:
/// `(0, y), (width - 1, y)` for each `1 <= y <= n`.
pub open spec fn edge_cols(width: u32, n: nat) -> Seq<GridPos> {
    Seq::new(
        2 * n,
        |i: int|
            if i % 2 == 0 {
                GridPos { x: 0, y: (1 + i / 2) as u32, z: 0 }
            } else {
                GridPos { x: (width - 1) as u32, y: (1 + i / 2) as u32, z: 0 }
            },
    )
}

/// The border cells in the order the game lists them: every column's top
/// and bottom cell, then every inner row's left and right cell.
pub open spec fn edge_seq(width: u32, height: u32) -> Seq<GridPos> {
    edge_rows(height, width as nat) + edge_cols(
        width,
        if height >= 2 {
            (height - 2) as nat
        } else {
            0
        },
    )
}

/// Border cells of a `width` × `height` grid.
pub fn compute_edge_cells(width: u32, height: u32) -> (edges: Vec<GridPos>)
    requires
        height >= 1,
        height >= 3 ==> width >= 1,
    ensures
        edges@ == edge_seq(width, height),
{
    let mut edges: Vec<GridPos> = Vec::new();
    let mut x: u32 = 0;
    while x < width
        invariant
            height >= 1,
            x <= width,
            edges@ == edge_rows(height, x as nat),
        decreases width - x,
    {
        edges.push(GridPos { x, y: 0, z: 0 });
        edges.push(GridPos { x, y: height - 1, z: 0 });
        assert(edges@ =~= edge_rows(height, (x + 1) as nat));
        x = x + 1;
    }
    let ghost rows = edges@;
    let mut y: u32 = 1;
    while y < height - 1
        invariant
            height >= 1,
            height >= 3 ==> width >= 1,
            1 <= y,
            y <= height - 1 || height == 1,
            height == 1 ==> y == 1,
            rows == edge_rows(height, width as nat),
            edges@ == rows + edge_cols(width, (y - 1) as nat),
        decreases height - y,
    {
        edges.push(GridPos { x: 0, y, z: 0 });
        edges.push(GridPos { x: width - 1, y, z: 0 });
        assert(edges@ =~= rows + edge_cols(width, y as nat));
        y = y + 1;
    }
    assert(edges@ =~= edge_seq(width, height));
    edges
}

/// The listed edge cells are exactly the layer-0 border cells of the grid.
pub proof fn lemma_edge_cells_are_border(width: u32, height: u32, p: GridPos)
    requires
        width >= 1,
        height >= 1,
    ensures
        edge_seq(width, height).contains(p) <==> (p.z == 0 && on_border(p.x, p.y, width, height)),
{
    let s = edge_seq(width, height);
    let rows = edge_rows(height, width as nat);
    let ncols: nat = if height >= 2 {
        (height - 2) as nat
    } else {
        0
    };
    let cols = edge_cols(width, ncols);
    if s.contains(p) {
        let k = choose|k: int| 0 <= k < s.len() && s[k] == p;
        if k < rows.len() {
            assert(s[k] == rows[k]);
        } else {
            assert(s[k] == cols[k - rows.len()]);
        }
    }
    if p.z == 0 && on_border(p.x, p.y, width, height) {
        if p.y == 0 {
            let k = 2 * p.x;
            assert(s[k] == rows[k]);
            assert(s[k] == p);
        } else if p.y == height - 1 {
            let k = 2 * p.x + 1;
            assert(s[k] == rows[k]);
            assert(s[k] == p);
        } else if p.x == 0 {
            let k = 2 * (p.y - 1);
            assert(s[rows.len() + k] == cols[k]);
            assert(s[rows.len() + k] == p);
        } else {
            let k = 2 * (p.y - 1) + 1;
            assert(s[rows.len() + k] == cols[k]);
            assert(s[rows.len() + k] == p);
        }
    }
}

/// On a grid at least two cells wide and high, no border cell is listed
/// twice, and there are `2 * width + 2 * (height - 2)` of them.
pub proof fn lemma_edge_cells_distinct(width: u32, height: u32)
    requires
        width >= 2,
        height >= 2,
    ensures
        edge_seq(width, height).no_duplicates(),
        edge_seq(width, height).len() == 2 * width + 2 * (height - 2),
{
    let s = edge_seq(width, height);
    let rows = edge_rows(height, width as nat);
    let cols = edge_cols(width, (height - 2) as nat);
    assert forall|i: int, j: int| 0 <= i < s.len() && 0 <= j < s.len() && i != j implies s[i] != s[j] by {
        if i < rows.len() && j < rows.len() {
            assert(s[i] == rows[i] && s[j] == rows[j]);
        } else if i >= rows.len() && j >= rows.len() {
            assert(s[i] == cols[i - rows.len()] && s[j] == cols[j - rows.len()]);
        } else if i < rows.len() {
            assert(s[i] == rows[i] && s[j] == cols[j - rows.len()]);
        } else {
            assert(s[j] == rows[j] && s[i] == cols[i - rows.len()]);
        }
    }
}

/// On a non-empty grid every footprint cell lies inside the grid.
pub proof fn lemma_footprint_in_grid(c: GridPos, center: GridPos, radius_sq: u64, width: u32, height: u32)
    requires
        width >= 1,
        height >= 1,
        in_footprint(c, center, radius_sq, width, height),
    ensures
        c.x < width,
        c.y < height,
        c.z == 0,
{
}

// ---------------------------------------------------------------------------
// Nearest-cell search
// ---------------------------------------------------------------------------

/// Every distance key between a listed cell and `pos` fits in `i32`.
pub open spec fn keys_fit(cells: Seq<GridPos>, pos: GridPos) -> bool {
    forall|i: int| 0 <= i < cells.len() ==> dist_key_fits(#[trigger] cells[i], pos)
}

/// Whether every distance key between a listed cell and `pos` fits in
/// `i32`, as the nearest-cell searches require.
pub fn check_keys_fit(cells: &[GridPos], pos: GridPos) -> (b: bool)
    ensures
        b == keys_fit(cells@, pos),
{
    let mut i: usize = 0;
    while i < cells.len()
        invariant
            i <= cells@.len(),
            forall|j: int| 0 <= j < i ==> dist_key_fits(#[trigger] cells@[j], pos),
        decreases cells@.len() - i,
    {
        if !distance_key_fits(cells[i], pos) {
            return false;
        }
        i = i + 1;
    }
    true
}

/// `i` indexes the first cell of `cells` with the least distance key to
/// `pos`.
pub open spec fn is_first_nearest(cells: Seq<GridPos>, pos: GridPos, i: int) -> bool {
    &&& 0 <= i < cells.len()
    &&& forall|j: int|
        0 <= j < cells.len() ==> dist_key(cells[i], pos) <= dist_key(#[trigger] cells[j], pos)
    &&& forall|j: int| 0 <= j < i ==> dist_key(cells[i], pos) < dist_key(#[trigger] cells[j], pos)
}

/// The first nearest cell of `cells` to `pos`, or `fallback` when there is
/// no cell.
pub open spec fn nearest_cell(cells: Seq<GridPos>, pos: GridPos, fallback: GridPos) -> GridPos {
    if cells.len() == 0 {
        fallback
    } else {
        cells[choose|i: int| is_first_nearest(cells, pos, i)]
    }
}

/// At most one index is the first nearest one.
pub proof fn lemma_first_nearest_unique(cells: Seq<GridPos>, pos: GridPos, i: int, k: int)
    requires
        is_first_nearest(cells, pos, i),
        is_first_nearest(cells, pos, k),
    ensures
        i == k,
{
    if i < k {
        assert(dist_key(cells[k], pos) < dist_key(cells[i], pos));
        assert(dist_key(cells[i], pos) <= dist_key(cells[k], pos));
    } else if k < i {
        assert(dist_key(cells[i], pos) < dist_key(cells[k], pos));
        assert(dist_key(cells[k], pos) <= dist_key(cells[i], pos));
    }
}

/// Index of the first nearest cell, `None` when there is no cell.
fn first_nearest_index(cells: &[GridPos], pos: GridPos) -> (r: Option<usize>)
    requires
        keys_fit(cells@, pos),
    ensures
        r is None <==> cells@.len() == 0,
        r matches Some(i) ==> is_first_nearest(cells@, pos, i as int),
{
    if cells.len() == 0 {
        return None;
    }
    let mut best: usize = 0;
    let mut best_key: u32 = distance_key(cells[0], pos);
    let mut i: usize = 1;
    while i < cells.len()
        invariant
            keys_fit(cells@, pos),
            1 <= i <= cells@.len(),
            best < i,
            best_key as int == dist_key(cells@[best as int], pos),
            forall|j: int| 0 <= j < i ==> best_key <= dist_key(#[trigger] cells@[j], pos),
            forall|j: int| 0 <= j < best ==> best_key < dist_key(#[trigger] cells@[j], pos),
        decreases cells@.len() - i,
    {
        assert(dist_key_fits(cells@[i as int], pos));
        let k = distance_key(cells[i], pos);
        if k < best_key {
            best = i;
            best_key = k;
        }
        i = i + 1;
    }
    Some(best)
}

fn nearest_or(cells: &[GridPos], pos: GridPos, fallback: GridPos) -> (r: GridPos)
    requires
        keys_fit(cells@, pos),
    ensures
        r == nearest_cell(cells@, pos, fallback),
{
    match first_nearest_index(cells, pos) {
        None => fallback,
        Some(i) => {
            proof {
                let k = choose|k: int| is_first_nearest(cells@, pos, k);
                lemma_first_nearest_unique(cells@, pos, i as int, k);
            }
            cells[i]
        },
    }
}

/// The pile cell nearest to `pos` (the first such cell in the footprint's
/// order), or the pile center when the footprint is empty.
pub fn nearest_pile_cell(pos: GridPos, pile_state: &PileState) -> (r: GridPos)
    requires
        keys_fit(pile_state.cells@, pos),
    ensures
        r == nearest_cell(pile_state.cells@, pos, pile_state.center),
        pile_state.cells@.len() > 0 ==> pile_state.cells@.contains(r),
{
    let r = nearest_or(pile_state.cells.as_slice(), pos, pile_state.center);
    proof {
        if pile_state.cells@.len() > 0 {
            lemma_nearest_is_listed(pile_state.cells@, pos, pile_state.center);
        }
    }
    r
}

/// The edge cell nearest to `pos` (the first such cell in list order), or
/// `pos` itself when there is no edge cell.
pub fn nearest_edge_cell(pos: GridPos, edge_cells: &[GridPos]) -> (r: GridPos)
    requires
        keys_fit(edge_cells@, pos),
    ensures
        r == nearest_cell(edge_cells@, pos, pos),
        edge_cells@.len() > 0 ==> edge_cells@.contains(r),
{
    let r = nearest_or(edge_cells, pos, pos);
    proof {
        if edge_cells@.len() > 0 {
            lemma_nearest_is_listed(edge_cells@, pos, pos);
        }
    }
    r
}

/// A non-empty list has a first nearest cell; it is listed and no listed
/// cell is strictly nearer.
pub proof fn lemma_nearest_is_listed(cells: Seq<GridPos>, pos: GridPos, fallback: GridPos)
    requires
        cells.len() > 0,
    ensures
        exists|i: int| is_first_nearest(cells, pos, i),
        cells.contains(nearest_cell(cells, pos, fallback)),
        forall|c: GridPos|
            cells.contains(c) ==> dist_key(nearest_cell(cells, pos, fallback), pos) <= dist_key(
                c,
                pos,
            ),
    decreases cells.len(),
{
    lemma_first_nearest_exists(cells, pos);
    let k = choose|k: int| is_first_nearest(cells, pos, k);
    assert(cells[k] == nearest_cell(cells, pos, fallback));
    assert forall|c: GridPos| cells.contains(c) implies dist_key(
        nearest_cell(cells, pos, fallback),
        pos,
    ) <= dist_key(c, pos) by {
        let j = choose|j: int| 0 <= j < cells.len() && cells[j] == c;
        assert(dist_key(cells[k], pos) <= dist_key(cells[j], pos));
    }
}

proof fn lemma_first_nearest_exists(cells: Seq<GridPos>, pos: GridPos)
    requires
        cells.len() > 0,
    ensures
        exists|i: int| is_first_nearest(cells, pos, i),
    decreases cells.len(),
{
    if cells.len() == 1 {
        assert(is_first_nearest(cells, pos, 0));
    } else {
        let init = cells.drop_last();
        lemma_first_nearest_exists(init, pos);
        let i = choose|i: int| is_first_nearest(init, pos, i);
        let last = cells.len() - 1;
        if dist_key(cells[last], pos) < dist_key(cells[i], pos) {
            assert forall|j: int| 0 <= j < cells.len() implies dist_key(cells[last], pos) <= dist_key(
                #[trigger] cells[j],
                pos,
            ) by {
                if j < last {
                    assert(init[j] == cells[j]);
                }
            }
            assert forall|j: int| 0 <= j < last implies dist_key(cells[last], pos) < dist_key(
                #[trigger] cells[j],
                pos,
            ) by {
                assert(init[j] == cells[j]);
            }
            assert(is_first_nearest(cells, pos, last));
        } else {
            assert forall|j: int| 0 <= j < cells.len() implies dist_key(cells[i], pos) <= dist_key(
                #[trigger] cells[j],
                pos,
            ) by {
                if j < last {
                    assert(init[j] == cells[j]);
                }
            }
            assert forall|j: int| 0 <= j < i implies dist_key(cells[i], pos) < dist_key(
                #[trigger] cells[j],
                pos,
            ) by {
                assert(init[j] == cells[j]);
            }
            assert(init[i] == cells[i]);
            assert(is_first_nearest(cells, pos, i));
        }
    }
}

/// The pile at the start of a run: the mode's starting scrap; a footprint
/// of squared radius `radius_sq` around the grid center, with `radius_int`
/// cached as the last integer radius; and the border cells of the map.
pub fn init_pile(config: &GridConfig, mode: GameMode, radius_sq: u64, radius_int: u32) -> (r: (
    PileScrap,
    PileState,
    EdgeCells,
))
    requires
        config.height >= 1,
        config.height >= 3 ==> config.width >= 1,
    ensures
        r.0.amount == starting_scrap_for(mode),
        r.1.center == (GridPos { x: config.width / 2, y: config.height / 2, z: 0 }),
        r.1.last_radius_int == radius_int,
        r.1.cells@.no_duplicates(),
        forall|c: GridPos| #[trigger]
            r.1.cells@.contains(c) <==> in_footprint(c, r.1.center, radius_sq, config.width, config.height),
        r.2.0@ == edge_seq(config.width, config.height),
{
    let amount = starting_scrap(mode);
    let center = config.center();
    let cells = compute_pile_cells(center, radius_sq, config.width, config.height);
    let edges = compute_edge_cells(config.width, config.height);
    (PileScrap { amount }, PileState { cells, center, last_radius_int: radius_int }, EdgeCells(edges))
}

/// How a grid cell's pile marking must change to match the footprint.
#[derive(Clone, Copy, Debug, PartialEq, Eq, Structural)]
pub enum PileMark {
    /// The cell joined the footprint: mark it (and tint it as pile).
    Add,
    /// The cell left the footprint: unmark it (and tint it as paper).
    Remove,
    /// The marking already matches.
    Keep,
}

/// The marking change for the cell at `(x, y)` that is currently marked as
/// pile or not: mark cells of the footprint, unmark cells outside it.
pub fn pile_mark_change(pile_state: &PileState, x: u32, y: u32, marked: bool) -> (m: PileMark)
    ensures
        m == (if pile_state.cells@.contains(GridPos { x, y, z: 0 }) && !marked {
            PileMark::Add
        } else if !pile_state.cells@.contains(GridPos { x, y, z: 0 }) && marked {
            PileMark::Remove
        } else {
            PileMark::Keep
        }),
{
    let coord = GridPos { x, y, z: 0 };
    let mut in_pile = false;
    let mut i: usize = 0;
    while i < pile_state.cells.len()
        invariant
            i <= pile_state.cells@.len(),
            in_pile <==> exists|j: int| 0 <= j < i && pile_state.cells@[j] == coord,
        decreases pile_state.cells@.len() - i,
    {
        if pile_state.cells[i] == coord {
            in_pile = true;
        }
        i = i + 1;
    }
    if in_pile && !marked {
        PileMark::Add
    } else if !in_pile && marked {
        PileMark::Remove
    } else {
        PileMark::Keep
    }
}

} // verus!
