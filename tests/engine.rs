use farmio::cell::Cell;
use farmio::game::{Action, Game};
use farmio::ground::Ground;
use farmio::lobby::{LobbyToPlayer, Session, SessionEvent, SessionStep};
use farmio::map::{FarmMap, SwapPair};
use farmio::message::{BlockedBy, GameSettings, MsgToPlayer, Outbound, Outgoing, Recipient};
use farmio::plant::{Plant, Swapshroom};
use farmio::pos::{Direction, Pos};
use farmio::seed::Seed;

fn settings(players: u32, size: u32, seed: u64) -> GameSettings {
    GameSettings { number_of_players: players, turn_duration_ms: 10000, map_size: size, seed }
}

fn bare(o: &Outbound) -> (Recipient, MsgToPlayer) {
    match &o.msg {
        Outgoing::Bare(m) => (o.to, *m),
        Outgoing::Envelope(e) => panic!("unexpected envelope {:?}", e.result),
    }
}

fn envelope_results(out: &[Outbound], id: u128) -> Vec<MsgToPlayer> {
    out.iter()
        .filter(|o| o.to == Recipient::Player(id))
        .filter_map(|o| match &o.msg {
            Outgoing::Envelope(e) => Some(e.result),
            Outgoing::Bare(_) => None,
        })
        .collect()
}

fn started_game() -> Game {
    let s = settings(2, 4, 1);
    let mut g = Game::new("g1".to_string(), s);
    g.connect(1, "A".to_string());
    g.connect(2, "B".to_string());
    g
}

fn plain_map(g: &mut Game) {
    g.map = FarmMap { size: 4, cells: vec![Cell { ground: Ground::Dirt, plant: Plant::Empty }; 16] };
}

#[test]
fn two_players_join_and_start() {
    let s = settings(2, 4, 1);
    let mut g = Game::new("g1".to_string(), s);
    let stones = g.map.get_stones();
    assert!(stones.len() >= 2);
    let (keep, out) = g.connect(1, "A".to_string());
    assert!(keep);
    assert_eq!(out.len(), 1);
    assert_eq!(bare(&out[0]), (Recipient::Player(1), MsgToPlayer::Connected { game_settings: s, players_connected: 1 }));
    assert!(!g.running);
    let (keep, out) = g.connect(2, "B".to_string());
    assert!(keep);
    assert_eq!(out.len(), 3);
    assert_eq!(bare(&out[0]), (Recipient::Player(2), MsgToPlayer::Connected { game_settings: s, players_connected: 2 }));
    assert_eq!(bare(&out[1]), (Recipient::Player(1), MsgToPlayer::GameStarted));
    assert_eq!(bare(&out[2]), (Recipient::Player(2), MsgToPlayer::GameStarted));
    assert!(g.running);
    assert_eq!(g.players[0].pos, stones[0]);
    assert_eq!(g.players[1].pos, stones[1]);
    assert_ne!(g.players[0].pos, g.players[1].pos);
}

#[test]
fn connect_twice_while_waiting_and_after_start() {
    let s = settings(2, 4, 3);
    let mut g = Game::new("g".to_string(), s);
    g.connect(1, "A".to_string());
    let (keep, out) = g.connect(1, "A".to_string());
    assert!(!keep);
    assert_eq!(bare(&out[0]), (Recipient::Caller, MsgToPlayer::AlreadyConnected));
    assert_eq!(g.players.len(), 1);
    let out = g.submit(1, Action::Idle);
    assert_eq!(bare(&out[0]), (Recipient::Player(1), MsgToPlayer::WaitingOtherPlayersToJoin));
    assert!(g.submit(9, Action::Idle).is_empty());
    g.connect(2, "B".to_string());
    let (keep, out) = g.connect(1, "A".to_string());
    assert!(keep);
    assert_eq!(bare(&out[0]), (Recipient::Player(1), MsgToPlayer::Reconnected));
    let (keep, out) = g.connect(3, "C".to_string());
    assert!(!keep);
    assert_eq!(bare(&out[0]), (Recipient::Caller, MsgToPlayer::GameIsFull));
}

#[test]
fn no_free_stone_means_game_is_full() {
    let s = settings(3, 4, 1);
    let mut g = Game::new("g".to_string(), s);
    g.map = FarmMap { size: 4, cells: vec![Cell { ground: Ground::Dirt, plant: Plant::Empty }; 16] };
    let (keep, out) = g.connect(1, "A".to_string());
    assert!(!keep);
    assert_eq!(bare(&out[0]), (Recipient::Caller, MsgToPlayer::GameIsFull));
    assert!(g.players.is_empty());
}

#[test]
fn turn_completes_when_everyone_acted() {
    let mut g = started_game();
    assert!(!g.turn_complete());
    g.submit(1, Action::Idle);
    assert!(!g.turn_complete());
    g.submit(1, Action::Till);
    assert_eq!(g.pending.len(), 1);
    g.submit(2, Action::Idle);
    assert!(g.turn_complete());
}

#[test]
fn one_envelope_per_action() {
    let mut g = started_game();
    plain_map(&mut g);
    g.players[0].pos = Pos { x: 0, y: 0 };
    g.players[1].pos = Pos { x: 2, y: 2 };
    g.submit(1, Action::Move { direction: Direction::Right });
    g.submit(2, Action::Trade { seed: Seed::Bush, volume: 2 });
    let out = g.resolve_turn();
    assert_eq!(out.len(), 2);
    assert_eq!(envelope_results(&out, 1), vec![MsgToPlayer::Moved]);
    assert_eq!(envelope_results(&out, 2), vec![MsgToPlayer::Traded]);
    assert_eq!(g.players[0].pos, Pos { x: 1, y: 0 });
    assert_eq!(g.turns, 1);
    assert!(g.pending.is_empty());
    match &out[0].msg {
        Outgoing::Envelope(e) => {
            assert_eq!(e.harvests[0], 991);
            assert_eq!(e.seeds[1], 2);
            assert_eq!(e.points, 0);
        }
        Outgoing::Bare(_) => panic!("expected an envelope"),
    }
}

#[test]
fn both_moving_to_one_cell_are_blocked() {
    let mut g = started_game();
    plain_map(&mut g);
    g.players[0].pos = Pos { x: 0, y: 1 };
    g.players[1].pos = Pos { x: 2, y: 1 };
    g.submit(1, Action::Move { direction: Direction::Right });
    g.submit(2, Action::Move { direction: Direction::Left });
    let out = g.resolve_turn();
    assert_eq!(envelope_results(&out, 1), vec![MsgToPlayer::BlockedBy(BlockedBy::AnotherPlayer)]);
    assert_eq!(envelope_results(&out, 2), vec![MsgToPlayer::BlockedBy(BlockedBy::AnotherPlayer)]);
    assert_eq!(g.players[0].pos, Pos { x: 0, y: 1 });
    assert_eq!(g.players[1].pos, Pos { x: 2, y: 1 });
}

#[test]
fn swapshroom_harvest_swaps_players() {
    let mut g = started_game();
    plain_map(&mut g);
    let shroom = Plant::Swapshroom(Swapshroom { growth: 8, pair_id: 5, active: true });
    g.map.set_cell(&Pos { x: 0, y: 0 }, Cell { ground: Ground::Dirt, plant: shroom });
    g.map.set_cell(&Pos { x: 3, y: 3 }, Cell { ground: Ground::Tiled, plant: shroom });
    g.active_swapshrooms = vec![SwapPair { pair_id: 5, first: Pos { x: 0, y: 0 }, second: Pos { x: 3, y: 3 } }];
    g.players[0].pos = Pos { x: 0, y: 0 };
    g.players[1].pos = Pos { x: 3, y: 3 };
    g.submit(1, Action::Harvest);
    g.submit(2, Action::Idle);
    let out = g.resolve_turn();
    assert_eq!(envelope_results(&out, 1), Vec::<MsgToPlayer>::new());
    assert_eq!(envelope_results(&out, 2), vec![MsgToPlayer::Idled]);
    let swapped: Vec<(Recipient, MsgToPlayer)> = out.iter().filter(|o| matches!(o.msg, Outgoing::Bare(_))).map(bare).collect();
    assert_eq!(swapped, vec![
        (Recipient::Player(1), MsgToPlayer::Swapped),
        (Recipient::Player(2), MsgToPlayer::Swapped),
    ]);
    assert_eq!(g.players[0].pos, Pos { x: 3, y: 3 });
    assert_eq!(g.players[1].pos, Pos { x: 0, y: 0 });
    assert!(g.active_swapshrooms.is_empty());
    // the emptied dirt sprouts wheat when the map grows at the end of the turn
    assert_eq!(
        g.map.get_cell(&Pos { x: 0, y: 0 }),
        Cell { ground: Ground::Dirt, plant: Plant::Wheat(farmio::plant::Wheat { growth: 0 }) }
    );
    assert_eq!(g.map.get_cell(&Pos { x: 3, y: 3 }), Cell { ground: Ground::Tiled, plant: Plant::Empty });
}

#[test]
fn planting_swapshrooms_draws_one_pair_id() {
    let mut g = started_game();
    plain_map(&mut g);
    g.players[0].pos = Pos { x: 0, y: 0 };
    g.players[0].seeds = vec![2; 9];
    g.submit(1, Action::Plant { seed: Seed::Swapshroom });
    g.submit(2, Action::Idle);
    g.resolve_turn();
    let id = g.players[0].next_swapshroom_pair_id.expect("a waiting pair id");
    match g.map.get_cell(&Pos { x: 0, y: 0 }).plant {
        Plant::Swapshroom(s) => assert_eq!(s.pair_id, id),
        other => panic!("expected a swapshroom, got {:?}", other),
    }
    assert!(id < u32::MAX);
}

#[test]
fn sunflower_ranks_are_drawn_for_stones() {
    let mut g = started_game();
    g.map = FarmMap { size: 4, cells: vec![Cell { ground: Ground::Stone, plant: Plant::Empty }; 16] };
    g.players[0].seeds = vec![1; 9];
    g.submit(1, Action::Plant { seed: Seed::Sunflower });
    g.submit(2, Action::Idle);
    g.resolve_turn();
    let mut ranks = Vec::new();
    for c in g.map.cells.iter() {
        match c.plant {
            Plant::Sunflower(s) => ranks.push(s.rank),
            other => panic!("expected a sunflower, got {:?}", other),
        }
    }
    assert!(ranks.iter().all(|r| *r < 255));
    assert!(ranks.iter().any(|r| *r != ranks[0]));
}

#[test]
fn map_generation_is_a_shuffled_bag() {
    let s = settings(3, 10, 42);
    let g1 = Game::new("a".to_string(), s);
    let g2 = Game::new("b".to_string(), s);
    assert_eq!(g1.map.cells, g2.map.cells);
    let count = |g: &Game, gr: Ground| g.map.cells.iter().filter(|c| c.ground == gr).count();
    assert_eq!(count(&g1, Ground::Stone), 3);
    assert_eq!(count(&g1, Ground::Water), 10);
    assert_eq!(count(&g1, Ground::Sand), 26);
    assert_eq!(count(&g1, Ground::Tiled), 6);
    assert_eq!(count(&g1, Ground::Dirt), 55);
    let first_kinds: Vec<Ground> = g1.map.cells.iter().take(10).map(|c| c.ground).collect();
    assert_ne!(first_kinds, vec![Ground::Tiled; 10].iter().take(5).chain(vec![Ground::Sand; 5].iter()).copied().collect::<Vec<_>>());
    let g3 = Game::new("c".to_string(), settings(3, 10, 43));
    assert_ne!(g1.map.cells, g3.map.cells);
}

#[test]
fn session_new_game_and_actions() {
    let mut s = Session::new();
    let a = s.step(SessionEvent::Act(Action::Idle));
    assert!(matches!(a, SessionStep::Reply(LobbyToPlayer::NotConnectedToAnyGame)));
    let st = settings(2, 4, 1);
    let taken = s.step(SessionEvent::NewGame {
        player_name: "A".to_string(),
        player_uuid: 7,
        game_name: "g1".to_string(),
        game_settings: st,
        taken: true,
    });
    assert!(matches!(taken, SessionStep::Reply(LobbyToPlayer::GameAlreadyExists)));
    assert!(!s.bound);
    let bad = s.step(SessionEvent::NewGame {
        player_name: "A".to_string(),
        player_uuid: 7,
        game_name: "g1".to_string(),
        game_settings: settings(2, 0, 1),
        taken: false,
    });
    assert!(matches!(bad, SessionStep::Reply(LobbyToPlayer::InvalidMsg)));
    let made = s.step(SessionEvent::NewGame {
        player_name: "A".to_string(),
        player_uuid: 7,
        game_name: "g1".to_string(),
        game_settings: st,
        taken: false,
    });
    match made {
        SessionStep::CreateAndConnect { game_name, game_settings, player_uuid, player_name } => {
            assert_eq!(game_name, "g1");
            assert_eq!(game_settings, st);
            assert_eq!(player_uuid, 7);
            assert_eq!(player_name, "A");
        }
        _ => panic!("expected a game to be created"),
    }
    let fwd = s.step(SessionEvent::Act(Action::Till));
    assert!(matches!(fwd, SessionStep::Forward { player_uuid: 7, action: Action::Till }));
    assert!(matches!(s.step(SessionEvent::SendFailed), SessionStep::Reply(LobbyToPlayer::UnableToCommunicateWithGame)));
    assert!(matches!(s.step(SessionEvent::Invalid), SessionStep::Reply(LobbyToPlayer::InvalidMsg)));
    assert!(matches!(s.step(SessionEvent::Closed), SessionStep::Disconnect { player_uuid: 7 }));
}

#[test]
fn session_join_game() {
    let mut s = Session::new();
    let miss = s.step(SessionEvent::JoinGame {
        player_name: "B".to_string(),
        player_uuid: 8,
        game_name: "nope".to_string(),
        found: false,
    });
    assert!(matches!(miss, SessionStep::Reply(LobbyToPlayer::GameNotExists)));
    assert!(matches!(s.step(SessionEvent::Closed), SessionStep::Done));
    let hit = s.step(SessionEvent::JoinGame {
        player_name: "B".to_string(),
        player_uuid: 8,
        game_name: "g1".to_string(),
        found: true,
    });
    match hit {
        SessionStep::Connect { player_uuid, player_name } => {
            assert_eq!(player_uuid, 8);
            assert_eq!(player_name, "B");
        }
        _ => panic!("expected a connect"),
    }
}

fn play(seed: u64) -> Game {
    let mut g = Game::new("replay".to_string(), settings(2, 6, seed));
    g.connect(1, "A".to_string());
    g.connect(2, "B".to_string());
    g.players[0].seeds = vec![3; 9];
    g.players[1].seeds = vec![3; 9];
    let script = [
        (Action::Plant { seed: Seed::Sunflower }, Action::Move { direction: Direction::Up }),
        (Action::Plant { seed: Seed::Swapshroom }, Action::Till),
        (Action::Move { direction: Direction::Right }, Action::Harvest),
        (Action::Plant { seed: Seed::Swapshroom }, Action::Move { direction: Direction::Left }),
        (Action::Idle, Action::Trade { seed: Seed::Tree, volume: 3 }),
    ];
    for (a, b) in script {
        g.submit(1, a);
        g.submit(2, b);
        g.resolve_turn();
    }
    g
}

#[test]
fn replayed_game_is_identical() {
    let g1 = play(11);
    let g2 = play(11);
    assert_eq!(g1.map.cells, g2.map.cells);
    assert_eq!(g1.active_swapshrooms, g2.active_swapshrooms);
    assert_eq!(g1.players[0].pos, g2.players[0].pos);
    assert_eq!(g1.players[1].pos, g2.players[1].pos);
    assert_eq!(g1.players[0].next_swapshroom_pair_id, g2.players[0].next_swapshroom_pair_id);
    assert_eq!(g1.turns, 5);
    let g3 = play(12);
    assert_ne!(g1.map.cells, g3.map.cells);
}

#[test]
fn standing_on_a_wallbush_is_answered_and_wears_it() {
    let mut g = started_game();
    g.map = FarmMap { size: 4, cells: vec![Cell { ground: Ground::Tiled, plant: Plant::Empty }; 16] };
    g.players[0].pos = Pos { x: 1, y: 1 };
    g.players[1].pos = Pos { x: 3, y: 3 };
    g.players[0].seeds = vec![1; 9];
    g.submit(1, Action::Plant { seed: Seed::Wallbush });
    g.submit(2, Action::Idle);
    let out = g.resolve_turn();
    assert_eq!(
        envelope_results(&out, 1),
        vec![MsgToPlayer::Planted, MsgToPlayer::BlockedBy(BlockedBy::WallBush)]
    );
    assert_eq!(envelope_results(&out, 2), vec![MsgToPlayer::Idled]);
    match g.map.get_cell(&Pos { x: 1, y: 1 }).plant {
        Plant::Wallbush(w) => assert_eq!(w.health, 41),
        other => panic!("expected a wallbush, got {:?}", other),
    }
    g.players[1].pos = Pos { x: 0, y: 1 };
    g.submit(1, Action::Idle);
    g.submit(2, Action::Move { direction: Direction::Right });
    let out = g.resolve_turn();
    assert_eq!(
        envelope_results(&out, 1),
        vec![MsgToPlayer::Idled, MsgToPlayer::BlockedBy(BlockedBy::WallBush)]
    );
    assert_eq!(envelope_results(&out, 2), vec![MsgToPlayer::BlockedBy(BlockedBy::WallBush)]);
    assert_eq!(g.players[1].pos, Pos { x: 0, y: 1 });
    match g.map.get_cell(&Pos { x: 1, y: 1 }).plant {
        Plant::Wallbush(w) => assert_eq!(w.health, 40),
        other => panic!("expected a wallbush, got {:?}", other),
    }
}

#[test]
fn swap_carries_a_player_who_did_nothing() {
    let mut g = started_game();
    plain_map(&mut g);
    let shroom = Plant::Swapshroom(Swapshroom { growth: 8, pair_id: 5, active: true });
    g.map.set_cell(&Pos { x: 0, y: 0 }, Cell { ground: Ground::Dirt, plant: shroom });
    g.map.set_cell(&Pos { x: 2, y: 3 }, Cell { ground: Ground::Dirt, plant: shroom });
    g.active_swapshrooms = vec![SwapPair { pair_id: 5, first: Pos { x: 0, y: 0 }, second: Pos { x: 2, y: 3 } }];
    g.players[0].pos = Pos { x: 2, y: 3 };
    g.players[1].pos = Pos { x: 1, y: 2 };
    g.submit(1, Action::Harvest);
    let out = g.resolve_turn();
    assert_eq!(out.len(), 1);
    assert_eq!(bare(&out[0]), (Recipient::Player(1), MsgToPlayer::Swapped));
    assert_eq!(g.players[0].pos, Pos { x: 0, y: 0 });
    assert_eq!(g.players[1].pos, Pos { x: 1, y: 2 });
}
