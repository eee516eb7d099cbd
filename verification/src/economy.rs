//! Scrap drops and the endless-mode bankruptcy check.

use vstd::prelude::*;

verus! {

/// Total scrap value of a drop: base loot plus the stolen scrap the enemy
/// was carrying.
pub fn compute_scrap_value(loot_value: u32, stolen_scrap: u32) -> (total: u32)
    requires
        loot_value + stolen_scrap <= u32::MAX,
    ensures
        total == loot_value + stolen_scrap,
{
    loot_value + stolen_scrap
}

/// Whether the player can still recover scrap from the field: some scrap
/// drop is lying around, or some enemy is still alive to be killed.
pub fn can_recover(drops_empty: bool, enemies_empty: bool) -> (b: bool)
    ensures
        b == (!drops_empty || !enemies_empty),
{
    !drops_empty || !enemies_empty
}

/// Endless-mode game over: the pile is empty and no scrap can be recovered.
pub fn endless_game_over(pile_amount: u32, drops_empty: bool, enemies_empty: bool) -> (over: bool)
    ensures
        over == (pile_amount == 0 && drops_empty && enemies_empty),
{
    if pile_amount > 0 {
        return false;
    }
    !can_recover(drops_empty, enemies_empty)
}

} // verus!
