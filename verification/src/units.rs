//! The plain values that describe a unit on the board: which side it is on, which
//! cell it stands in, who it is, and the tactic its brain is following.

use vstd::prelude::*;

verus! {

/// Which side a unit fights for.
#[derive(Debug, Clone, Copy, PartialEq, Eq, Hash, Structural)]
pub enum Faction {
    Player,
    Enemy,
}

/// A board cell (decisions are made per cell).
#[derive(Debug, Clone, Copy, PartialEq, Eq, Hash, Structural)]
pub struct Cell {
    pub x: i32,
    pub z: i32,
}

impl Cell {
    /// The cell at column `x`, row `z`.
    pub fn new(x: i32, z: i32) -> (c: Cell)
        ensures
            c.x == x,
            c.z == z,
    {
        Cell { x, z }
    }
}

/// A unit's identity on the board: its slot index and the generation of that slot
/// (a reused slot gets a new generation, so two identities never alias).
#[derive(Debug, Clone, Copy, PartialEq, Eq, Hash, Structural)]
pub struct UnitId {
    pub index: u32,
    pub generation: u32,
}

/// The tactic an enemy brain is following.
#[derive(Debug, Clone, Copy, PartialEq, Eq, Hash, Structural)]
pub enum Tactic {
    Idle,
    Approach,
    Melee,
    Shoot,
    Retreat,
    Dodge,
}

/// Player armour: a design knob (one point, so no hit needs an extra blow yet).
pub const PLAYER_ARMOR: i32 = 1;

/// Enemy armour: enemies stay softer than the player.
pub const ENEMY_ARMOR: i32 = 0;

/// The armour a unit of each side is assembled with.
pub open spec fn faction_armor(faction: Faction) -> int {
    match faction {
        Faction::Player => PLAYER_ARMOR as int,
        Faction::Enemy => ENEMY_ARMOR as int,
    }
}

/// The armour of this side (assembly is the one place that decides unit stats).
pub fn armor_for(faction: Faction) -> (armor: i32)
    ensures
        armor == faction_armor(faction),
{
    match faction {
        Faction::Player => PLAYER_ARMOR,
        Faction::Enemy => ENEMY_ARMOR,
    }
}

/// Armour is never negative (negative armour would raise damage), and for now the
/// player is never softer than an enemy.
pub proof fn lemma_armor_is_sane(faction: Faction)
    ensures
        faction_armor(faction) >= 0,
        faction_armor(Faction::Player) >= faction_armor(Faction::Enemy),
{
}

/// Where the player is spawned: column 1, row 0.
pub open spec fn player_spawn() -> Cell {
    Cell { x: 1, z: 0 }
}

/// Where the enemies are spawned: two separate cells, so each enemy gets its own
/// panel row and the two can be told apart on the board.
pub open spec fn enemy_spawns() -> Seq<Cell> {
    seq![Cell { x: 3, z: 3 }, Cell { x: 3, z: 5 }]
}

/// The player's spawn cell.
pub fn player_spawn_cell() -> (c: Cell)
    ensures
        c == player_spawn(),
{
    Cell::new(1, 0)
}

/// The enemies' spawn cells, one per enemy.
pub fn enemy_spawn_cells() -> (cells: Vec<Cell>)
    ensures
        cells@ == enemy_spawns(),
{
    let mut cells: Vec<Cell> = Vec::new();
    cells.push(Cell::new(3, 3));
    cells.push(Cell::new(3, 5));
    proof {
        assert(cells@ =~= enemy_spawns());
    }
    cells
}

} // verus!
