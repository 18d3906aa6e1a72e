use vstd::prelude::*;
use crate::cell::Cell;
use crate::harvest::Harvest;

verus! {

/// The settings a game is created with.
#[derive(Debug, Clone, Copy, PartialEq, Eq, Structural)]
pub struct GameSettings {
    pub number_of_players: u32,
    pub turn_duration_ms: u32,
    pub map_size: u32,
    pub seed: u64,
}

/// What stopped a move.
#[derive(Debug, Clone, Copy, PartialEq, Eq, Structural)]
pub enum BlockedBy {
    AnotherPlayer,
    WallBush,
    Swapshroom,
}

/// What the game tells a player.
#[derive(Debug, Clone, Copy, PartialEq, Eq, Structural)]
pub enum MsgToPlayer {
    Connected { game_settings: GameSettings, players_connected: u32 },
    AlreadyConnected,
    Reconnected,
    WaitingOtherPlayersToJoin,
    GameIsFull,
    GameStarted,
    Idled,
    Moved,
    BlockedBy(BlockedBy),
    Harvested { harvest: Harvest, volume: u32 },
    NoHarvest,
    Planted,
    NotEnoughSeed,
    WrongGroundType,
    CannotPlantOver,
    Traded,
    NotEnoughHarvest,
    InvalidTrade,
    Tilled,
    Swapped,
}

/// The answer to an action, with what the player sees after it: the cell
/// under them, their harvests and seeds by slot, and their points.
pub struct MsgToPlayerWithGameContent {
    pub result: MsgToPlayer,
    pub cell: Cell,
    pub harvests: Vec<u32>,
    pub seeds: Vec<u32>,
    pub points: u32,
}

/// A message as it goes out: wrapped with the player's view, or bare.
pub enum Outgoing {
    Envelope(MsgToPlayerWithGameContent),
    Bare(MsgToPlayer),
}

/// Who a message is for: a player of the game by id, or the connection that
/// sent the message being answered.
#[derive(Debug, Clone, Copy, PartialEq, Eq, Structural)]
pub enum Recipient {
    Player(u128),
    Caller,
}

/// One message to send.
pub struct Outbound {
    pub to: Recipient,
    pub msg: Outgoing,
}

} // verus!
