use centurion::enemies::{Axis, EnemyBehavior};
use centurion::items::ItemKind;
use centurion::procgen::{
    build_room_proc, generate_enemy_defs, generate_item_defs, place_exit, place_pillars, shuffle_candidates, sub_seed,
};
use centurion::reach::is_reachable;
use centurion::room::{GridPos, RoomLayout, TileKind};

#[test]
fn test_determinism_same_seed() {
    let (layout_a, exit_a) = build_room_proc(1, 0xDEADBEEF_CAFEBABE);
    let (layout_b, exit_b) = build_room_proc(1, 0xDEADBEEF_CAFEBABE);
    assert_eq!(exit_a, exit_b);
    for y in 0..8u8 {
        for x in 0..8u8 {
            assert_eq!(layout_a.get(x, y), layout_b.get(x, y), "Tile mismatch at ({},{})", x, y);
        }
    }
}

#[test]
fn test_different_seeds_produce_different_exits() {
    let exits: Vec<_> = (0u64..20)
        .map(|s| {
            let (_, exit) = build_room_proc(1, s.wrapping_mul(1234567891011));
            exit
        })
        .collect();
    let unique: std::collections::HashSet<_> = exits.iter().collect();
    assert!(unique.len() > 3, "Expected variety in exit positions, got {:?}", unique);
}

#[test]
fn test_exit_not_on_player_spawn() {
    for seed in [0u64, 1, 42, 999, u64::MAX, u64::MAX / 2] {
        for floor in 1u8..=10 {
            let (_, exit) = build_room_proc(floor, seed);
            assert_ne!(exit, GridPos { x: 1, y: 1 }, "Exit landed on player spawn for seed={} floor={}", seed, floor);
        }
    }
}

#[test]
fn test_room_always_connected() {
    for seed in [0u64, 1, 7, 42, 12345, 999999, u64::MAX] {
        for floor in 1u8..=9 {
            let (layout, exit) = build_room_proc(floor, seed);
            assert!(
                is_reachable(GridPos { x: 1, y: 1 }, exit, &layout),
                "Room disconnected: seed={} floor={}",
                seed,
                floor
            );
        }
    }
}

#[test]
fn test_perimeter_always_walls() {
    let (layout, _) = build_room_proc(3, 0xABCD1234);
    for i in 0..8u8 {
        assert_eq!(layout.get(i, 0), TileKind::Wall);
        assert_eq!(layout.get(i, 7), TileKind::Wall);
        assert_eq!(layout.get(0, i), TileKind::Wall);
        assert_eq!(layout.get(7, i), TileKind::Wall);
    }
}

#[test]
fn test_item_positions_avoid_walls_spawn_exit_enemies() {
    let (layout, exit) = build_room_proc(1, 0xFEEDFACE);
    let enemy_defs = generate_enemy_defs(1, 0xFEEDFACE, &layout, exit);
    let enemy_positions: Vec<GridPos> = enemy_defs.iter().map(|d| d.pos).collect();
    let items = generate_item_defs(1, 0xFEEDFACE, &layout, exit, &enemy_positions);
    let player_spawn = GridPos { x: 1, y: 1 };
    for item in &items {
        assert_ne!(item.pos, player_spawn, "Item on player spawn");
        assert_ne!(item.pos, exit, "Item on exit");
        assert_ne!(layout.get(item.pos.x, item.pos.y), TileKind::Wall, "Item on wall");
        assert!(!enemy_positions.contains(&item.pos), "Item on enemy");
    }
    assert!(items.len() >= 1 && items.len() <= 2);
}

#[test]
fn test_enemy_positions_avoid_walls_spawn_exit() {
    let (layout, exit) = build_room_proc(2, 0xFEEDFACE);
    let defs = generate_enemy_defs(2, 0xFEEDFACE, &layout, exit);
    let player_spawn = GridPos { x: 1, y: 1 };
    for def in &defs {
        assert_ne!(def.pos, player_spawn, "Enemy on player spawn");
        assert_ne!(def.pos, exit, "Enemy on exit");
        assert_ne!(layout.get(def.pos.x, def.pos.y), TileKind::Wall, "Enemy on wall");
    }
    assert!(defs.len() >= 2 && defs.len() <= 4);
}

#[test]
fn test_sub_seed_uniqueness() {
    let s0 = sub_seed(42, 1, 0);
    let s1 = sub_seed(42, 1, 1);
    let s2 = sub_seed(42, 2, 0);
    assert_ne!(s0, s1);
    assert_ne!(s0, s2);
}

#[test]
fn test_floor_progression_variety() {
    let seed = 0x0123456789ABCDEF;
    let exits: Vec<_> = (1u8..=9)
        .map(|f| {
            let (_, e) = build_room_proc(f, seed);
            e
        })
        .collect();
    let first = exits[0];
    assert!(exits.iter().any(|e| *e != first), "All floors produced the same exit — seed mixing may be broken");
}

#[test]
fn sub_seed_exact_values() {
    assert_eq!(sub_seed(0, 0, 0), 0);
    assert_eq!(sub_seed(0, 3, 4), 3 * 256 + 4);
    assert_eq!(sub_seed(1, 0, 0), 6364136223846793005);
    assert_eq!(sub_seed(2, 1, 0), 6364136223846793005u64.wrapping_mul(2).wrapping_add(256));
    assert_eq!(sub_seed(u64::MAX, 0, 1), 1u64.wrapping_sub(6364136223846793005));
}

#[test]
fn floor_ten_is_open_arena() {
    let (layout, exit) = build_room_proc(10, 12345);
    assert_eq!(exit, GridPos { x: 0, y: 0 });
    for y in 1..7u8 {
        for x in 1..7u8 {
            assert_eq!(layout.get(x, y), TileKind::Floor);
        }
    }
}

#[test]
fn exit_tile_holds_exit() {
    for seed in [3u64, 77, 0xFFFF_0000] {
        for floor in 1u8..=9 {
            let (layout, exit) = build_room_proc(floor, seed);
            assert_eq!(layout.get(exit.x, exit.y), TileKind::Exit);
            assert_eq!(place_exit(floor, seed), exit);
        }
    }
}

#[test]
fn shuffle_keeps_every_cell_once() {
    let cells: Vec<GridPos> = (0u8..9).map(|i| GridPos { x: i, y: 9 - i }).collect();
    let shuffled = shuffle_candidates(cells.clone(), 0xDEAD);
    assert_eq!(shuffled.len(), cells.len());
    for c in &cells {
        assert_eq!(shuffled.iter().filter(|s| *s == c).count(), 1);
    }
    assert!(shuffle_candidates(Vec::new(), 5).is_empty());
    let one = vec![GridPos { x: 2, y: 3 }];
    assert_eq!(shuffle_candidates(one.clone(), 5), one);
}

#[test]
fn shuffle_two_cells_follows_generator() {
    // One round: state = seed * LCG_MUL + LCG_INC; j = (state >> 33) % 2.
    let seed = 11u64;
    let state = seed.wrapping_mul(6364136223846793005).wrapping_add(1442695040888963407);
    let j = ((state >> 33) % 2) as usize;
    let cells = vec![GridPos { x: 1, y: 1 }, GridPos { x: 2, y: 2 }];
    let mut expected = cells.clone();
    expected.swap(1, j);
    assert_eq!(shuffle_candidates(cells, seed), expected);
}

#[test]
fn enemy_defs_follow_pattern() {
    let (layout, exit) = build_room_proc(4, 99);
    let defs = generate_enemy_defs(4, 99, &layout, exit);
    let count = 2 + (sub_seed(99, 4, 10) % 3) as usize;
    assert_eq!(defs.len(), count);
    for (i, d) in defs.iter().enumerate() {
        assert_eq!(d.force, 4 + 2 + 2 * i as i32);
        let expected = match i % 3 {
            0 => EnemyBehavior::Guard { alerted: false },
            1 => EnemyBehavior::Patrol { axis: Axis::Horizontal, direction: 1 },
            _ => EnemyBehavior::Static,
        };
        assert_eq!(d.behavior, expected);
    }
}

#[test]
fn item_kinds_follow_sub_seeds() {
    let (layout, exit) = build_room_proc(5, 4242);
    let items = generate_item_defs(5, 4242, &layout, exit, &[]);
    assert_eq!(items.len(), 1 + (sub_seed(4242, 5, 200) % 2) as usize);
    for (i, it) in items.iter().enumerate() {
        let expected = match sub_seed(4242, 5, 202 + i as u64) % 3 {
            0 => ItemKind::Ration,
            1 => ItemKind::Whetstone,
            _ => ItemKind::Runa,
        };
        assert_eq!(it.kind, expected);
    }
}

#[test]
fn no_room_for_enemies_in_walled_off_room() {
    let rows = [[TileKind::Wall; 8]; 8];
    let layout = RoomLayout::new(rows);
    let defs = generate_enemy_defs(1, 1, &layout, GridPos { x: 6, y: 6 });
    assert!(defs.is_empty());
}

#[test]
fn sub_seed_unique_per_floor_and_salt() {
    let s = 42;
    assert_ne!(sub_seed(s, 3, 7), sub_seed(s, 3, 8));
    assert_ne!(sub_seed(s, 3, 7), sub_seed(s, 4, 7));
    assert_ne!(sub_seed(s, 3, 7), sub_seed(s + 1, 3, 7));
    assert_ne!(sub_seed(s, 1, 0), sub_seed(s, 0, 1));
    assert_ne!(sub_seed(s, 1, 1), sub_seed(s, 2, 0));
    let mut seen = std::collections::HashSet::new();
    for floor in 0u8..=10 {
        for salt in 0u64..=203 {
            assert!(seen.insert(sub_seed(s, floor, salt)));
        }
    }
}

const SEEDS: [u64; 6] = [0, 1, 42, 77, 0xDEAD_BEEF_CAFE_BABE, u64::MAX];

#[test]
fn every_drawn_pillar_is_placed() {
    for floor in 1u8..=9 {
        for seed in SEEDS {
            let exit = place_exit(floor, seed);
            let mut layout = RoomLayout::walled();
            layout.set(exit.x, exit.y, TileKind::Exit);
            let before = layout;
            let placed = place_pillars(floor, seed, &mut layout, exit);
            assert_eq!(placed.len() as u64, sub_seed(seed, floor, 1) % 4);
            for (i, p) in placed.iter().enumerate() {
                assert!((2..=4).contains(&p.x) && (2..=4).contains(&p.y));
                assert!(!placed[..i].contains(p));
            }
            for x in 0..8u8 {
                for y in 0..8u8 {
                    let expected = if placed.contains(&GridPos { x, y }) { TileKind::Wall } else { before.get(x, y) };
                    assert_eq!(layout.get(x, y), expected);
                }
            }
            assert!(is_reachable(GridPos { x: 1, y: 1 }, exit, &layout));
        }
    }
}

#[test]
fn generated_rooms_get_every_enemy_and_item() {
    for floor in 1u8..=9 {
        for seed in SEEDS {
            let (layout, exit) = build_room_proc(floor, seed);
            let enemies = generate_enemy_defs(floor, seed, &layout, exit);
            assert_eq!(enemies.len() as u64, 2 + sub_seed(seed, floor, 10) % 3);
            let taken: Vec<GridPos> = enemies.iter().map(|e| e.pos).collect();
            let items = generate_item_defs(floor, seed, &layout, exit, &taken);
            assert_eq!(items.len() as u64, 1 + sub_seed(seed, floor, 200) % 2);
        }
    }
}
