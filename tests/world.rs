use farmio::actions::{action_harvest, action_plant, action_till, action_trade};
use farmio::cell::{to_char, to_chars3, Cell};
use farmio::ground::Ground;
use farmio::harvest::Harvest;
use farmio::map::{FarmMap, SwapPair};
use farmio::message::{BlockedBy, MsgToPlayer};
use farmio::moves::action_move_execution;
use farmio::plant::{Bush, Cactus, Plant, Pumpkin, Sunflower, Swapshroom, Wallbush, Wheat};
use farmio::player::Player;
use farmio::pos::{Direction, Pos};
use farmio::seed::Seed;

fn blank_map(size: usize, ground: Ground) -> FarmMap {
    FarmMap { size, cells: vec![Cell { ground, plant: Plant::Empty }; size * size] }
}

fn player_at(id: u128, x: i32, y: i32) -> Player {
    Player::new(format!("p{}", id), id, Pos { x, y })
}

#[test]
fn next_pos_wraps_around_the_torus() {
    let p = Pos { x: 0, y: 0 };
    assert_eq!(p.get_next_pos_on_map(Some(Direction::Left), 4), Pos { x: 3, y: 0 });
    assert_eq!(p.get_next_pos_on_map(Some(Direction::Up), 4), Pos { x: 0, y: 3 });
    let q = Pos { x: 3, y: 3 };
    assert_eq!(q.get_next_pos_on_map(Some(Direction::Right), 4), Pos { x: 0, y: 3 });
    assert_eq!(q.get_next_pos_on_map(Some(Direction::Down), 4), Pos { x: 3, y: 0 });
    assert_eq!(q.get_next_pos_on_map(None, 4), q);
}

#[test]
fn next_pos_stays_on_map_from_anywhere() {
    for n in 1..6 {
        for x in -7..7 {
            for y in -7..7 {
                for d in [Direction::Up, Direction::Right, Direction::Down, Direction::Left] {
                    let r = Pos { x, y }.get_next_pos_on_map(Some(d), n);
                    assert!(0 <= r.x && r.x < n && 0 <= r.y && r.y < n);
                }
            }
        }
    }
}

#[test]
fn direction_steps() {
    assert_eq!(Direction::Up.to_pos(), Pos { x: 0, y: -1 });
    assert_eq!(Direction::Right.to_pos(), Pos { x: 1, y: 0 });
    assert_eq!(Direction::Down.to_pos(), Pos { x: 0, y: 1 });
    assert_eq!(Direction::Left.to_pos(), Pos { x: -1, y: 0 });
}

#[test]
fn pumpkin_yield_is_square_of_size() {
    let p = Pumpkin { growth: 12, current_size: 3, max_size: 3 };
    assert_eq!(p.pumpkinseed_yield(), 9);
    let q = Pumpkin { growth: 20, current_size: 5, max_size: 5 };
    assert_eq!(q.pumpkinseed_yield(), 25);
}

#[test]
fn digits_for_drawing() {
    assert_eq!(to_chars3(7), ['0', '0', '7']);
    assert_eq!(to_chars3(42), ['0', '4', '2']);
    assert_eq!(to_chars3(255), ['2', '5', '5']);
    assert_eq!(to_char(7), '7');
    assert_eq!(to_char(42), '4');
    assert_eq!(to_char(199), '1');
}

#[test]
fn cell_drawn_in_ansi() {
    let c = Cell { ground: Ground::Dirt, plant: Plant::Wheat(Wheat { growth: 3 }) };
    let r = c.to_ansi();
    assert_eq!(r[0], "\x1b[48;5;94m\x1b[38;5;184mW\x1b[0m");
    assert_eq!(r[3], "\x1b[48;5;94m\x1b[38;5;184m3\x1b[0m");
    assert_eq!(r[4], "\x1b[48;5;94m\x1b[38;5;184m/\x1b[0m");
    assert_eq!(r[7], "\x1b[48;5;94m\x1b[38;5;184m8\x1b[0m");
    let s = Cell {
        ground: Ground::Tiled,
        plant: Plant::Swapshroom(Swapshroom { growth: 5, pair_id: 42, active: false }),
    };
    let r = s.to_ansi();
    assert_eq!(r[0], "\x1b[48;5;22m\x1b[38;5;53m5\x1b[0m");
    assert_eq!(r[6], "\x1b[48;5;22m\x1b[38;5;53m4\x1b[0m");
    assert_eq!(r[7], "\x1b[48;5;22m\x1b[38;5;53m2\x1b[0m");
    let big = Cell {
        ground: Ground::Stone,
        plant: Plant::Swapshroom(Swapshroom { growth: 8, pair_id: 4294967294, active: true }),
    };
    let r = big.to_ansi();
    assert_eq!(r[0], "\x1b[48;5;249m\x1b[38;5;53m*\x1b[0m");
    assert_eq!(r[1], "\x1b[48;5;249m\x1b[38;5;53m4\x1b[0m");
    assert_eq!(r[7], "\x1b[48;5;249m\x1b[38;5;53m7\x1b[0m");
}

#[test]
fn two_player_move_collision_blocks_both() {
    let mut map = blank_map(4, Ground::Dirt);
    let mut players = vec![player_at(1, 0, 0), player_at(2, 2, 0)];
    let moves = vec![Some(Direction::Right), Some(Direction::Left)];
    let r = action_move_execution(&mut map, &mut players, &moves, &Vec::new());
    assert_eq!(r, vec![
        Some(MsgToPlayer::BlockedBy(BlockedBy::AnotherPlayer)),
        Some(MsgToPlayer::BlockedBy(BlockedBy::AnotherPlayer)),
    ]);
    assert_eq!(players[0].pos, Pos { x: 0, y: 0 });
    assert_eq!(players[1].pos, Pos { x: 2, y: 0 });
}

#[test]
fn moving_onto_a_standing_player_is_blocked() {
    let mut map = blank_map(4, Ground::Dirt);
    let mut players = vec![player_at(1, 0, 0), player_at(2, 1, 0)];
    let moves = vec![Some(Direction::Right), None];
    let r = action_move_execution(&mut map, &mut players, &moves, &Vec::new());
    assert_eq!(r, vec![Some(MsgToPlayer::BlockedBy(BlockedBy::AnotherPlayer)), None]);
    assert_eq!(players[0].pos, Pos { x: 0, y: 0 });
}

#[test]
fn free_move_succeeds() {
    let mut map = blank_map(4, Ground::Dirt);
    let mut players = vec![player_at(1, 3, 1), player_at(2, 0, 0)];
    let moves = vec![Some(Direction::Right), None];
    let r = action_move_execution(&mut map, &mut players, &moves, &Vec::new());
    assert_eq!(r, vec![Some(MsgToPlayer::Moved), None]);
    assert_eq!(players[0].pos, Pos { x: 0, y: 1 });
}

#[test]
fn standing_on_active_swapshroom_blocks_moving() {
    let mut map = blank_map(4, Ground::Dirt);
    let mut players = vec![player_at(1, 1, 1)];
    let active = vec![SwapPair { pair_id: 9, first: Pos { x: 1, y: 1 }, second: Pos { x: 3, y: 3 } }];
    let r = action_move_execution(&mut map, &mut players, &vec![Some(Direction::Up)], &active);
    assert_eq!(r, vec![Some(MsgToPlayer::BlockedBy(BlockedBy::Swapshroom))]);
    assert_eq!(players[0].pos, Pos { x: 1, y: 1 });
}

#[test]
fn wallbush_wears_down_after_forty_two_blocks() {
    let mut map = blank_map(4, Ground::Tiled);
    map.set_cell(
        &Pos { x: 1, y: 0 },
        Cell { ground: Ground::Tiled, plant: Plant::Wallbush(Wallbush { growth: 8, health: 42 }) },
    );
    let mut players = vec![player_at(1, 0, 0)];
    let moves = vec![Some(Direction::Right)];
    for turn in 1..=42u32 {
        let r = action_move_execution(&mut map, &mut players, &moves, &Vec::new());
        assert_eq!(r, vec![Some(MsgToPlayer::BlockedBy(BlockedBy::WallBush))]);
        assert_eq!(players[0].pos, Pos { x: 0, y: 0 });
        let c = map.get_cell(&Pos { x: 1, y: 0 });
        if turn < 42 {
            assert_eq!(c.plant, Plant::Wallbush(Wallbush { growth: 8, health: (42 - turn) as u8 }));
        } else {
            assert_eq!(c.plant, Plant::Empty);
        }
    }
    let r = action_move_execution(&mut map, &mut players, &moves, &Vec::new());
    assert_eq!(r, vec![Some(MsgToPlayer::Moved)]);
    assert_eq!(players[0].pos, Pos { x: 1, y: 0 });
}

#[test]
fn wallbush_worn_once_per_turn_for_two_blocked_players() {
    let mut map = blank_map(4, Ground::Tiled);
    map.set_cell(
        &Pos { x: 1, y: 1 },
        Cell { ground: Ground::Tiled, plant: Plant::Wallbush(Wallbush { growth: 8, health: 42 }) },
    );
    let mut players = vec![player_at(1, 0, 1), player_at(2, 2, 1)];
    let moves = vec![Some(Direction::Right), Some(Direction::Left)];
    let r = action_move_execution(&mut map, &mut players, &moves, &Vec::new());
    assert_eq!(r, vec![
        Some(MsgToPlayer::BlockedBy(BlockedBy::WallBush)),
        Some(MsgToPlayer::BlockedBy(BlockedBy::WallBush)),
    ]);
    assert_eq!(
        map.get_cell(&Pos { x: 1, y: 1 }).plant,
        Plant::Wallbush(Wallbush { growth: 8, health: 41 })
    );
}

fn sunflower_map() -> FarmMap {
    let mut map = blank_map(4, Ground::Stone);
    map.set_cell(
        &Pos { x: 0, y: 0 },
        Cell { ground: Ground::Stone, plant: Plant::Sunflower(Sunflower { growth: 30, rank: 200 }) },
    );
    map.set_cell(
        &Pos { x: 1, y: 0 },
        Cell { ground: Ground::Stone, plant: Plant::Sunflower(Sunflower { growth: 30, rank: 201 }) },
    );
    map
}

#[test]
fn sunflower_of_lower_rank_fines_the_harvester() {
    let mut map = sunflower_map();
    let mut p = player_at(1, 0, 0);
    p.points = 2000;
    let r = action_harvest(&mut map, &mut p, &mut Vec::new(), &mut Vec::new());
    assert_eq!(r, Some(MsgToPlayer::NoHarvest));
    assert_eq!(p.points, 976);
    assert_eq!(map.get_cell(&Pos { x: 0, y: 0 }).plant, Plant::Empty);
}

#[test]
fn sunflower_fine_saturates_at_zero() {
    let mut map = sunflower_map();
    let mut p = player_at(1, 0, 0);
    p.points = 100;
    let r = action_harvest(&mut map, &mut p, &mut Vec::new(), &mut Vec::new());
    assert_eq!(r, Some(MsgToPlayer::NoHarvest));
    assert_eq!(p.points, 0);
}

#[test]
fn sunflower_of_highest_rank_gives_power() {
    let mut map = sunflower_map();
    let mut p = player_at(1, 1, 0);
    let r = action_harvest(&mut map, &mut p, &mut Vec::new(), &mut Vec::new());
    assert_eq!(r, Some(MsgToPlayer::Harvested { harvest: Harvest::Power, volume: 1 }));
    assert_eq!(p.points, 1024);
    assert_eq!(p.harvests[6], 1000);
}

#[test]
fn highest_sunflower_rank_of_the_map() {
    assert_eq!(sunflower_map().get_highest_sunflower_rank(), 201);
    assert_eq!(blank_map(3, Ground::Dirt).get_highest_sunflower_rank(), 0);
}

#[test]
fn harvest_yields_by_plant() {
    let cases = [
        (Plant::Wheat(Wheat { growth: 8 }), Some((Harvest::Grains, 1u32, 1u32)), Plant::Empty),
        (Plant::Bush(Bush { growth: 26, berries: 4 }), Some((Harvest::Berry, 4, 8)), Plant::Bush(Bush { growth: 10, berries: 0 })),
        (Plant::Bush(Bush { growth: 10, berries: 0 }), Some((Harvest::Wood, 1, 1)), Plant::Empty),
        (Plant::Pumpkin(Pumpkin { growth: 12, current_size: 3, max_size: 3 }), Some((Harvest::PumpkinSeed, 9, 45)), Plant::Empty),
        (Plant::Cactus(Cactus { growth: 18, size: 3 }), Some((Harvest::CactusMeat, 3, 30)), Plant::Empty),
        (Plant::Wheat(Wheat { growth: 5 }), None, Plant::Empty),
        (Plant::Wallbush(Wallbush { growth: 8, health: 42 }), None, Plant::Wallbush(Wallbush { growth: 8, health: 42 })),
    ];
    for (plant, gain, left) in cases {
        let mut map = blank_map(2, Ground::Tiled);
        map.set_cell(&Pos { x: 0, y: 0 }, Cell { ground: Ground::Tiled, plant });
        let mut p = player_at(1, 0, 0);
        let r = action_harvest(&mut map, &mut p, &mut Vec::new(), &mut Vec::new());
        match gain {
            Some((h, v, pts)) => {
                assert_eq!(r, Some(MsgToPlayer::Harvested { harvest: h, volume: v }));
                assert_eq!(p.points, pts);
            }
            None => {
                assert_eq!(r, Some(MsgToPlayer::NoHarvest));
                assert_eq!(p.points, 0);
            }
        }
        assert_eq!(map.get_cell(&Pos { x: 0, y: 0 }).plant, left);
    }
}

#[test]
fn trade_bush_seeds_for_grains() {
    let mut p = player_at(1, 0, 0);
    p.harvests = vec![10, 0, 0, 0, 0, 0, 0];
    let r = action_trade(&mut p, Seed::Bush, 2);
    assert_eq!(r, MsgToPlayer::Traded);
    assert_eq!(p.harvests[0], 2);
    assert_eq!(p.seeds[1], 2);
}

#[test]
fn trade_errors() {
    let mut p = player_at(1, 0, 0);
    p.harvests = vec![10, 0, 0, 0, 0, 0, 0];
    assert_eq!(action_trade(&mut p, Seed::Bush, 0), MsgToPlayer::InvalidTrade);
    assert_eq!(action_trade(&mut p, Seed::Wheat, 1), MsgToPlayer::InvalidTrade);
    assert_eq!(action_trade(&mut p, Seed::Bush, 3), MsgToPlayer::NotEnoughHarvest);
    assert_eq!(action_trade(&mut p, Seed::Pumpkin, 1), MsgToPlayer::NotEnoughHarvest);
    assert_eq!(p.harvests, vec![10, 0, 0, 0, 0, 0, 0]);
    assert_eq!(p.seeds, vec![0; 9]);
}

#[test]
fn repeated_trades_equal_one_trade() {
    let mut a = player_at(1, 0, 0);
    let mut b = player_at(2, 0, 0);
    for _ in 0..5 {
        assert_eq!(action_trade(&mut a, Seed::Cactus, 1), MsgToPlayer::Traded);
    }
    assert_eq!(action_trade(&mut b, Seed::Cactus, 5), MsgToPlayer::Traded);
    assert_eq!(a.harvests, b.harvests);
    assert_eq!(a.seeds, b.seeds);
    assert_eq!(a.harvests[3], 999 - 45);
    assert_eq!(a.harvests[2], 999 - 80);
    assert_eq!(a.seeds[5], 5);
}

#[test]
fn plant_rules() {
    let mut map = blank_map(2, Ground::Sand);
    let mut p = player_at(1, 0, 0);
    assert_eq!(action_plant(&mut map, &mut p, Seed::Cane, 0, &Vec::new()), MsgToPlayer::NotEnoughSeed);
    p.seeds = vec![1; 9];
    assert_eq!(action_plant(&mut map, &mut p, Seed::Tree, 0, &Vec::new()), MsgToPlayer::WrongGroundType);
    assert_eq!(p.seeds[2], 1);
    assert_eq!(action_plant(&mut map, &mut p, Seed::Cane, 0, &Vec::new()), MsgToPlayer::Planted);
    assert_eq!(p.seeds[3], 0);
    assert_eq!(map.get_cell(&Pos { x: 0, y: 0 }).plant, Plant::Cane(farmio::plant::Cane { growth: 0 }));
    map.set_cell(
        &Pos { x: 0, y: 0 },
        Cell { ground: Ground::Sand, plant: Plant::Wallbush(Wallbush { growth: 0, health: 42 }) },
    );
    assert_eq!(action_plant(&mut map, &mut p, Seed::Cactus, 0, &Vec::new()), MsgToPlayer::CannotPlantOver);
    assert_eq!(p.seeds[5], 1);
}

#[test]
fn planted_then_harvested_gives_nothing() {
    let all = [
        (Seed::Wheat, Ground::Dirt),
        (Seed::Bush, Ground::Tiled),
        (Seed::Tree, Ground::Dirt),
        (Seed::Cane, Ground::Sand),
        (Seed::Pumpkin, Ground::Tiled),
        (Seed::Cactus, Ground::Sand),
        (Seed::Wallbush, Ground::Tiled),
        (Seed::Swapshroom, Ground::Water),
        (Seed::Sunflower, Ground::Stone),
    ];
    for (seed, ground) in all {
        let mut map = blank_map(2, ground);
        let mut p = player_at(1, 0, 0);
        p.seeds = vec![1; 9];
        assert_eq!(action_plant(&mut map, &mut p, seed, 0, &vec![3u8; 4]), MsgToPlayer::Planted);
        let r = action_harvest(&mut map, &mut p, &mut Vec::new(), &mut Vec::new());
        assert_eq!(r, Some(MsgToPlayer::NoHarvest));
        assert_eq!(map.get_cell(&Pos { x: 0, y: 0 }), Cell { ground, plant: Plant::Empty });
        assert_eq!(p.points, 0);
    }
}

#[test]
fn sunflower_seed_sows_every_free_stone() {
    let mut map = blank_map(2, Ground::Stone);
    map.set_cell(
        &Pos { x: 1, y: 1 },
        Cell { ground: Ground::Stone, plant: Plant::Swapshroom(Swapshroom { growth: 0, pair_id: 1, active: false }) },
    );
    map.set_cell(&Pos { x: 1, y: 0 }, Cell { ground: Ground::Dirt, plant: Plant::Empty });
    let mut p = player_at(1, 0, 0);
    p.seeds = vec![1; 9];
    let ranks = vec![7u8, 8, 9, 10];
    assert_eq!(action_plant(&mut map, &mut p, Seed::Sunflower, 0, &ranks), MsgToPlayer::Planted);
    assert_eq!(p.seeds[8], 0);
    assert_eq!(map.cells[0].plant, Plant::Sunflower(Sunflower { growth: 0, rank: 7 }));
    assert_eq!(map.cells[1].plant, Plant::Empty);
    assert_eq!(map.cells[2].plant, Plant::Sunflower(Sunflower { growth: 0, rank: 9 }));
    assert!(matches!(map.cells[3].plant, Plant::Swapshroom(_)));
}

#[test]
fn till_toggles_and_twice_restores() {
    let mut map = blank_map(2, Ground::Dirt);
    let p = player_at(1, 0, 0);
    assert_eq!(action_till(&mut map, &p), MsgToPlayer::Tilled);
    assert_eq!(map.cells[0], Cell { ground: Ground::Tiled, plant: Plant::Empty });
    assert_eq!(action_till(&mut map, &p), MsgToPlayer::Tilled);
    assert_eq!(map.cells[0], Cell { ground: Ground::Dirt, plant: Plant::Empty });
    let shroom = Plant::Swapshroom(Swapshroom { growth: 3, pair_id: 5, active: false });
    map.set_cell(&Pos { x: 0, y: 0 }, Cell { ground: Ground::Tiled, plant: shroom });
    action_till(&mut map, &p);
    action_till(&mut map, &p);
    assert_eq!(map.cells[0], Cell { ground: Ground::Tiled, plant: shroom });
    map.set_cell(&Pos { x: 0, y: 0 }, Cell { ground: Ground::Dirt, plant: Plant::Wheat(Wheat { growth: 8 }) });
    action_till(&mut map, &p);
    assert_eq!(map.cells[0], Cell { ground: Ground::Tiled, plant: Plant::Empty });
    map.set_cell(&Pos { x: 0, y: 0 }, Cell { ground: Ground::Water, plant: Plant::Empty });
    assert_eq!(action_till(&mut map, &p), MsgToPlayer::WrongGroundType);
}

#[test]
fn growth_of_a_turn() {
    let mut map = blank_map(3, Ground::Dirt);
    map.set_cell(&Pos { x: 0, y: 0 }, Cell { ground: Ground::Water, plant: Plant::Empty });
    map.set_cell(&Pos { x: 1, y: 0 }, Cell { ground: Ground::Dirt, plant: Plant::Wheat(Wheat { growth: 7 }) });
    map.set_cell(&Pos { x: 1, y: 1 }, Cell { ground: Ground::Dirt, plant: Plant::Wheat(Wheat { growth: 3 }) });
    map.set_cell(&Pos { x: 2, y: 2 }, Cell { ground: Ground::Tiled, plant: Plant::Bush(Bush { growth: 12, berries: 0 }) });
    let mut active = Vec::new();
    map.update_map(&mut active);
    assert_eq!(map.get_cell(&Pos { x: 1, y: 0 }).plant, Plant::Wheat(Wheat { growth: 8 }));
    assert_eq!(map.get_cell(&Pos { x: 1, y: 1 }).plant, Plant::Wheat(Wheat { growth: 4 }));
    assert_eq!(map.get_cell(&Pos { x: 0, y: 1 }).plant, Plant::Wheat(Wheat { growth: 0 }));
    assert_eq!(map.get_cell(&Pos { x: 2, y: 2 }).plant, Plant::Bush(Bush { growth: 13, berries: 0 }));
    map.update_map(&mut active);
    map.update_map(&mut active);
    assert_eq!(map.get_cell(&Pos { x: 2, y: 2 }).plant, Plant::Bush(Bush { growth: 15, berries: 1 }));
}

#[test]
fn swapshroom_pair_activates_and_swaps() {
    let mut map = blank_map(4, Ground::Dirt);
    let mut a = player_at(1, 0, 0);
    a.seeds = vec![2; 9];
    assert_eq!(action_plant(&mut map, &mut a, Seed::Swapshroom, 777, &Vec::new()), MsgToPlayer::Planted);
    assert_eq!(a.next_swapshroom_pair_id, Some(777));
    a.pos = Pos { x: 3, y: 3 };
    assert_eq!(action_plant(&mut map, &mut a, Seed::Swapshroom, 999, &Vec::new()), MsgToPlayer::Planted);
    assert_eq!(a.next_swapshroom_pair_id, None);
    let mut active = Vec::new();
    for _ in 0..7 {
        map.update_map(&mut active);
    }
    assert!(active.is_empty());
    map.update_map(&mut active);
    assert_eq!(active, vec![SwapPair { pair_id: 777, first: Pos { x: 0, y: 0 }, second: Pos { x: 3, y: 3 } }]);
    let mut swaps = Vec::new();
    let r = action_harvest(&mut map, &mut a, &mut active, &mut swaps);
    assert_eq!(r, None);
    assert!(active.is_empty());
    assert_eq!(swaps, vec![(Pos { x: 0, y: 0 }, Pos { x: 3, y: 3 })]);
    assert_eq!(map.get_cell(&Pos { x: 0, y: 0 }).plant, Plant::Empty);
    assert_eq!(map.get_cell(&Pos { x: 3, y: 3 }).plant, Plant::Empty);
}

#[test]
fn stones_listed_row_by_row() {
    let mut map = blank_map(3, Ground::Dirt);
    map.set_cell(&Pos { x: 2, y: 0 }, Cell { ground: Ground::Stone, plant: Plant::Empty });
    map.set_cell(&Pos { x: 0, y: 2 }, Cell { ground: Ground::Stone, plant: Plant::Empty });
    assert_eq!(map.get_stones(), vec![Pos { x: 2, y: 0 }, Pos { x: 0, y: 2 }]);
}

#[test]
fn player_harvest_credits_and_saturates() {
    let mut p = player_at(1, 0, 0);
    let r = p.harvest(Harvest::Sugar, 3, 2);
    assert_eq!(r, MsgToPlayer::Harvested { harvest: Harvest::Sugar, volume: 3 });
    assert_eq!(p.harvests[3], 1002);
    assert_eq!(p.points, 6);
    p.points = u32::MAX - 1;
    p.harvest(Harvest::Sugar, 3, 2);
    assert_eq!(p.points, u32::MAX);
}

#[test]
fn moves_do_not_depend_on_player_order() {
    let setup = |order: &[usize]| {
        let mut map = blank_map(5, Ground::Dirt);
        map.set_cell(
            &Pos { x: 4, y: 4 },
            Cell { ground: Ground::Tiled, plant: Plant::Wallbush(Wallbush { growth: 8, health: 3 }) },
        );
        let all = [
            (player_at(1, 0, 0), Some(Direction::Right)),
            (player_at(2, 2, 0), Some(Direction::Left)),
            (player_at(3, 3, 3), Some(Direction::Down)),
            (player_at(4, 4, 3), Some(Direction::Down)),
            (player_at(5, 2, 2), None),
        ];
        let mut players = Vec::new();
        let mut moves = Vec::new();
        for &i in order {
            players.push(Player::new(all[i].0.player_name.clone(), all[i].0.player_id, all[i].0.pos));
            moves.push(all[i].1);
        }
        let r = action_move_execution(&mut map, &mut players, &moves, &Vec::new());
        let mut seen: Vec<(u128, Option<MsgToPlayer>, Pos)> =
            players.iter().zip(r.iter()).map(|(p, m)| (p.player_id, *m, p.pos)).collect();
        seen.sort_by_key(|s| s.0);
        (seen, map.cells)
    };
    let (a, cells_a) = setup(&[0, 1, 2, 3, 4]);
    let (b, cells_b) = setup(&[4, 3, 2, 1, 0]);
    let (c, cells_c) = setup(&[2, 0, 4, 1, 3]);
    assert_eq!(a, b);
    assert_eq!(a, c);
    assert_eq!(cells_a, cells_b);
    assert_eq!(cells_a, cells_c);
    assert_eq!(a[2], (3, Some(MsgToPlayer::Moved), Pos { x: 3, y: 4 }));
    assert_eq!(a[3], (4, Some(MsgToPlayer::BlockedBy(BlockedBy::WallBush)), Pos { x: 4, y: 3 }));
}

#[test]
fn a_line_of_movers_stays_apart() {
    let mut map = blank_map(5, Ground::Dirt);
    let mut players = vec![player_at(1, 0, 0), player_at(2, 2, 0), player_at(3, 0, 2), player_at(4, 4, 4)];
    let moves = vec![Some(Direction::Right), Some(Direction::Down), Some(Direction::Up), Some(Direction::Left)];
    let r = action_move_execution(&mut map, &mut players, &moves, &Vec::new());
    assert_eq!(r, vec![Some(MsgToPlayer::Moved); 4]);
    let ps: Vec<Pos> = players.iter().map(|p| p.pos).collect();
    assert_eq!(ps, vec![Pos { x: 1, y: 0 }, Pos { x: 2, y: 1 }, Pos { x: 0, y: 1 }, Pos { x: 3, y: 4 }]);
    for i in 0..ps.len() {
        for j in i + 1..ps.len() {
            assert_ne!(ps[i], ps[j]);
        }
    }
}

#[test]
fn standing_on_a_wallbush_wears_it_once_with_a_mover() {
    let mut map = blank_map(4, Ground::Tiled);
    map.set_cell(
        &Pos { x: 1, y: 0 },
        Cell { ground: Ground::Tiled, plant: Plant::Wallbush(Wallbush { growth: 0, health: 5 }) },
    );
    let mut players = vec![player_at(1, 1, 0), player_at(2, 0, 0), player_at(3, 3, 3)];
    let moves = vec![None, Some(Direction::Right), None];
    let r = action_move_execution(&mut map, &mut players, &moves, &Vec::new());
    assert_eq!(r, vec![
        Some(MsgToPlayer::BlockedBy(BlockedBy::WallBush)),
        Some(MsgToPlayer::BlockedBy(BlockedBy::WallBush)),
        None,
    ]);
    assert_eq!(map.get_cell(&Pos { x: 1, y: 0 }).plant, Plant::Wallbush(Wallbush { growth: 0, health: 4 }));
    assert_eq!(players[1].pos, Pos { x: 0, y: 0 });
}
