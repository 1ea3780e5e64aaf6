//! What spawns when the player enters a room.
use vstd::prelude::*;
use crate::room::{GridPos, RoomLayout};
use crate::enemies::{EnemyBehavior, EnemyDef};
use crate::items::ItemDef;
use crate::player::PlayerPersistence;
use crate::procgen::{
    build_room_proc, generate_enemy_defs, generate_item_defs, room_spec, enemy_order, enemy_count,
    enemy_def_spec, item_order, item_count, item_kind_spec, min_int,
};

verus! {

/// The floor of the boss fight.
pub const BOSS_FLOOR: u8 = 10;

/// The boss's force: twice the force the player enters with, or 20 when
/// nothing carried over.
pub fn boss_force(persistence: Option<PlayerPersistence>) -> (f: i32)
    requires
        persistence matches Some(p) ==> i32::MIN <= p.force * 2 <= i32::MAX,
    ensures
        f == (match persistence {
            Some(p) => p.force * 2,
            None => 20,
        }),
{
    match persistence {
        Some(p) => p.force * 2,
        None => 20,
    }
}

/// The enemies of a room. Floor 10 holds one static boss at the centre (4, 4);
/// any other floor holds the generated enemies, placed with the given layout
/// and exit, or with the floor's generated ones where these are missing.
pub fn enemy_spawn_defs(
    floor: u8,
    run_seed: u64,
    layout: Option<&RoomLayout>,
    exit_pos: Option<GridPos>,
    persistence: Option<PlayerPersistence>,
) -> (defs: Vec<EnemyDef>)
    requires
        floor == 10 ==> (persistence matches Some(p) ==> i32::MIN <= p.force * 2 <= i32::MAX),
    ensures
        floor == 10 ==> defs@ == seq![EnemyDef {
            pos: GridPos { x: 4, y: 4 },
            force: match persistence {
                Some(p) => (p.force * 2) as i32,
                None => 20,
            },
            behavior: EnemyBehavior::Static,
        }],
        floor != 10 ==> ({
            let tiles = match layout {
                Some(l) => l@,
                None => room_spec(floor, run_seed).0,
            };
            let exit = match exit_pos {
                Some(e) => e,
                None => room_spec(floor, run_seed).1,
            };
            let order = enemy_order(tiles, exit, floor, run_seed);
            &&& defs@.len() == min_int(enemy_count(floor, run_seed), order.len() as int)
            &&& forall|i: int| 0 <= i < defs@.len() ==> #[trigger] defs@[i] == enemy_def_spec(floor, i, order[i])
        }),
{
    if floor == BOSS_FLOOR {
        let boss = EnemyDef {
            pos: GridPos { x: 4, y: 4 },
            force: boss_force(persistence),
            behavior: EnemyBehavior::Static,
        };
        let defs = vec![boss];
        assert(defs@ =~= seq![boss]);
        return defs;
    }
    let generated = build_room_proc(floor, run_seed);
    let room = match layout {
        Some(l) => *l,
        None => generated.0,
    };
    let exit = match exit_pos {
        Some(e) => e,
        None => generated.1,
    };
    generate_enemy_defs(floor, run_seed, &room, exit)
}

/// The items of a room: none on floor 10 or without a layout and an exit;
/// otherwise the generated items, avoiding the enemies' cells.
pub fn item_spawn_defs(
    floor: u8,
    run_seed: u64,
    layout: Option<&RoomLayout>,
    exit_pos: Option<GridPos>,
    enemy_positions: &[GridPos],
) -> (defs: Vec<ItemDef>)
    ensures
        (floor == 10 || layout is None || exit_pos is None) ==> defs@.len() == 0,
        (floor != 10 && layout is Some && exit_pos is Some) ==> ({
            let order = item_order(layout.unwrap()@, exit_pos.unwrap(), enemy_positions@, floor, run_seed);
            &&& defs@.len() == min_int(item_count(floor, run_seed), order.len() as int)
            &&& forall|i: int| 0 <= i < defs@.len()
                ==> #[trigger] defs@[i] == (ItemDef { pos: order[i], kind: item_kind_spec(floor, run_seed, i) })
        }),
{
    if floor == BOSS_FLOOR {
        return Vec::new();
    }
    match (layout, exit_pos) {
        (Some(l), Some(e)) => generate_item_defs(floor, run_seed, l, e, enemy_positions),
        _ => Vec::new(),
    }
}

} // verus!
