//! Enemy rules: the steal-and-flee state machine, pathfinding goals,
//! spawn-point selection, and the blueprint registry.

use rand::rngs::SmallRng;
use vstd::prelude::*;

use crate::geom::GridPos;
use crate::pile::{
    check_keys_fit, keys_fit, nearest_cell, nearest_edge_cell, nearest_pile_cell, EdgeCells, PileScrap, PileState,
};
use crate::random::choose_position;

verus! {

/// State machine for scrap-stealing enemies: they approach the pile, and
/// flee to the map edge once they have reached it.
#[derive(Clone, Copy, Debug, PartialEq, Eq, Hash, Structural)]
pub enum EnemyState {
    Approaching,
    Fleeing,
}

impl Default for EnemyState {
    fn default() -> (s: EnemyState)
        ensures
            s == EnemyState::Approaching,
    {
        EnemyState::Approaching
    }
}

/// How much scrap an enemy steals: the lesser of its loot capacity and the
/// pile's current amount.
pub fn compute_steal_amount(loot_value: u32, pile_amount: u32) -> (stolen: u32)
    ensures
        stolen == if loot_value <= pile_amount {
            loot_value
        } else {
            pile_amount
        },
{
    if loot_value <= pile_amount {
        loot_value
    } else {
        pile_amount
    }
}

/// What happens when an approaching enemy reaches the pile.
#[derive(Clone, Copy, Debug, PartialEq, Eq, Structural)]
pub struct PileArrival {
    /// Scrap taken from the pile (possibly 0 when the pile is empty).
    pub stolen: u32,
    /// The edge cell the enemy now flees to.
    pub flee_target: GridPos,
}

/// An approaching enemy whose path has run out has reached the pile: it
/// steals what it can carry, and turns to flee toward the nearest edge cell.
/// Enemies that are already fleeing, or still following a path, are left
/// alone (`None`).
pub fn resolve_pile_arrival(
    state: &mut EnemyState,
    path_active: bool,
    agent_pos: GridPos,
    loot_value: u32,
    pile_scrap: &mut PileScrap,
    edge_cells: &EdgeCells,
) -> (arrival: Option<PileArrival>)
    requires
        keys_fit(edge_cells.0@, agent_pos),
    ensures
        (*old(state) == EnemyState::Approaching && !path_active) <==> arrival is Some,
        arrival is None ==> *final(state) == *old(state) && final(pile_scrap).amount == old(
            pile_scrap,
        ).amount,
        arrival matches Some(a) ==> {
            &&& *final(state) == EnemyState::Fleeing
            &&& a.stolen == compute_steal_amount_spec(loot_value, old(pile_scrap).amount)
            &&& old(pile_scrap).amount == final(pile_scrap).amount + a.stolen
            &&& a.flee_target == nearest_cell(edge_cells.0@, agent_pos, agent_pos)
        },
{
    if *state != EnemyState::Approaching || path_active {
        return None;
    }
    let stolen = compute_steal_amount(loot_value, pile_scrap.amount);
    pile_scrap.amount = pile_scrap.amount - stolen;
    let flee_target = nearest_edge_cell(agent_pos, edge_cells.0.as_slice());
    *state = EnemyState::Fleeing;
    Some(PileArrival { stolen, flee_target })
}

/// The lesser of loot capacity and pile amount.
pub open spec fn compute_steal_amount_spec(loot_value: u32, pile_amount: u32) -> u32 {
    if loot_value <= pile_amount {
        loot_value
    } else {
        pile_amount
    }
}

/// Scrap is conserved when an enemy reaches the pile: what leaves the pile
/// is exactly what the enemy carries, and never more than its capacity.
pub proof fn lemma_steal_conserves_scrap(loot_value: u32, pile_before: u32)
    ensures
        compute_steal_amount_spec(loot_value, pile_before) <= loot_value,
        compute_steal_amount_spec(loot_value, pile_before) <= pile_before,
        (pile_before - compute_steal_amount_spec(loot_value, pile_before)) + compute_steal_amount_spec(
            loot_value,
            pile_before,
        ) == pile_before,
        pile_before == 0 ==> compute_steal_amount_spec(loot_value, pile_before) == 0,
{
}

/// Pathfinding goal of an enemy after the grid changed: approaching enemies
/// head for the nearest pile cell, fleeing ones for the nearest edge cell.
pub fn enemy_path_goal(
    state: EnemyState,
    agent_pos: GridPos,
    pile_state: &PileState,
    edge_cells: &EdgeCells,
) -> (goal: GridPos)
    requires
        keys_fit(pile_state.cells@, agent_pos),
        keys_fit(edge_cells.0@, agent_pos),
    ensures
        goal == match state {
            EnemyState::Approaching => nearest_cell(pile_state.cells@, agent_pos, pile_state.center),
            EnemyState::Fleeing => nearest_cell(edge_cells.0@, agent_pos, agent_pos),
        },
{
    match state {
        EnemyState::Approaching => nearest_pile_cell(agent_pos, pile_state),
        EnemyState::Fleeing => nearest_edge_cell(agent_pos, edge_cells.0.as_slice()),
    }
}

/// Every edge cell's distance keys to the pile cells fit in `i32`.
pub open spec fn edge_keys_fit(edge_cells: Seq<GridPos>, pile_cells: Seq<GridPos>) -> bool {
    forall|i: int| 0 <= i < edge_cells.len() ==> keys_fit(pile_cells, #[trigger] edge_cells[i])
}

/// Whether every edge cell's distance keys to the pile cells fit in `i32`,
/// as spawn-point selection requires.
pub fn check_edge_keys_fit(edge_cells: &[GridPos], pile_cells: &[GridPos]) -> (b: bool)
    ensures
        b == edge_keys_fit(edge_cells@, pile_cells@),
{
    let mut i: usize = 0;
    while i < edge_cells.len()
        invariant
            i <= edge_cells@.len(),
            forall|j: int| 0 <= j < i ==> keys_fit(pile_cells@, #[trigger] edge_cells@[j]),
        decreases edge_cells@.len() - i,
    {
        if !check_keys_fit(pile_cells, edge_cells[i]) {
            return false;
        }
        i = i + 1;
    }
    true
}

/// Pick where a new enemy enters and where it heads: a random edge cell,
/// and the pile cell nearest to it (the pile center when the footprint is
/// empty). `None` when there is no edge cell.
pub fn pick_spawn_and_goal(
    edge_cells: &EdgeCells,
    pile_state: &PileState,
    rng: &mut SmallRng,
) -> (r: Option<(GridPos, GridPos)>)
    requires
        edge_keys_fit(edge_cells.0@, pile_state.cells@),
    ensures
        r is None <==> edge_cells.0@.len() == 0,
        r matches Some((spawn, goal)) ==> {
            &&& edge_cells.0@.contains(spawn)
            &&& goal == nearest_cell(pile_state.cells@, spawn, pile_state.center)
        },
{
    match choose_position(rng, edge_cells.0.as_slice()) {
        None => None,
        Some(spawn) => {
            proof {
                let k = choose|k: int| 0 <= k < edge_cells.0@.len() && edge_cells.0@[k] == spawn;
                assert(keys_fit(pile_state.cells@, edge_cells.0@[k]));
            }
            let goal = nearest_pile_cell(spawn, pile_state);
            Some((spawn, goal))
        },
    }
}

// ---------------------------------------------------------------------------
// Blueprint registry
// ---------------------------------------------------------------------------

/// A named enemy blueprint; `data` carries whatever the spawner needs
/// (colors, the component inserter).
pub struct EnemyBlueprint<B> {
    pub name: String,
    pub data: B,
}

/// Registry of all available enemy types, filled by the per-type plugins at
/// startup and searched by name.
pub struct EnemyRegistry<B> {
    pub blueprints: Vec<EnemyBlueprint<B>>,
}

/// `i` indexes the first blueprint called `name`.
pub open spec fn first_named<B>(blueprints: Seq<EnemyBlueprint<B>>, name: Seq<char>, i: int) -> bool {
    &&& 0 <= i < blueprints.len()
    &&& blueprints[i].name@ == name
    &&& forall|j: int| 0 <= j < i ==> (#[trigger] blueprints[j]).name@ != name
}

impl<B> EnemyRegistry<B> {
    /// An empty registry.
    pub fn new() -> (r: Self)
        ensures
            r.blueprints@.len() == 0,
    {
        EnemyRegistry { blueprints: Vec::new() }
    }

    /// Find the first blueprint whose name is exactly `name`; `None` when no
    /// entry has that name.
    pub fn lookup(&self, name: &str) -> (r: Option<&EnemyBlueprint<B>>)
        ensures
            r is None <==> forall|i: int|
                0 <= i < self.blueprints@.len() ==> (#[trigger] self.blueprints@[i]).name@ != name@,
            r matches Some(b) ==> exists|i: int|
                first_named(self.blueprints@, name@, i) && *b == self.blueprints@[i],
    {
        let wanted: String = name.to_owned();
        let mut i: usize = 0;
        while i < self.blueprints.len()
            invariant
                wanted@ == name@,
                i <= self.blueprints@.len(),
                forall|j: int| 0 <= j < i ==> (#[trigger] self.blueprints@[j]).name@ != name@,
            decreases self.blueprints@.len() - i,
        {
            if self.blueprints[i].name == wanted {
                assert(first_named(self.blueprints@, name@, i as int));
                return Some(&self.blueprints[i]);
            }
            i = i + 1;
        }
        None
    }
}

impl<B> Default for EnemyRegistry<B> {
    fn default() -> (r: Self)
        ensures
            r.blueprints@.len() == 0,
    {
        EnemyRegistry::new()
    }
}

} // verus!
