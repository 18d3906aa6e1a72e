//! The decisions of one connection: which game it is bound to and where each
//! incoming line goes. The caller parses the lines, looks names up in the
//! registry of games, and carries out the step it is given.

use vstd::prelude::*;
use crate::game::Action;
use crate::map::MAX_MAP_SIZE;
use crate::message::GameSettings;

verus! {

/// What the lobby tells a connection.
#[derive(Debug, Clone, Copy, PartialEq, Eq, Structural)]
pub enum LobbyToPlayer {
    GameCreated,
    GameAlreadyExists,
    GameNotExists,
    NotConnectedToAnyGame,
    UnableToCommunicateWithGame,
    InvalidMsg,
}

/// Settings a game can be built from: a map side in `1..=MAX_MAP_SIZE`.
pub open spec fn settings_ok(s: GameSettings) -> bool {
    1 <= s.map_size <= MAX_MAP_SIZE
}

/// Whether a game can be built from these settings.
pub fn settings_valid(s: &GameSettings) -> (r: bool)
    ensures
        r == settings_ok(*s),
{
    1 <= s.map_size && s.map_size as usize <= MAX_MAP_SIZE
}

/// What happened on the connection.
pub enum SessionEvent {
    /// A request to create a game; `taken` says whether the registry already
    /// holds a game of that name.
    NewGame { player_name: String, player_uuid: u128, game_name: String, game_settings: GameSettings, taken: bool },
    /// A request to join a game; `found` says whether the registry holds it.
    JoinGame { player_name: String, player_uuid: u128, game_name: String, found: bool },
    /// A line that reads as a game action.
    Act(Action),
    /// The bound game could not be reached.
    SendFailed,
    /// A line that is neither.
    Invalid,
    /// The connection closed.
    Closed,
}

/// What the caller is to do next.
pub enum SessionStep {
    /// Send this answer to the connection.
    Reply(LobbyToPlayer),
    /// Build the game, publish it under its name, answer `GameCreated`, then
    /// connect the player to it.
    CreateAndConnect { game_name: String, game_settings: GameSettings, player_uuid: u128, player_name: String },
    /// Connect the player to the game just looked up.
    Connect { player_uuid: u128, player_name: String },
    /// Hand the action to the bound game as the player's.
    Forward { player_uuid: u128, action: Action },
    /// Tell the bound game the player left.
    Disconnect { player_uuid: u128 },
    /// Nothing to do.
    Done,
}

/// The state of one connection.
pub struct Session {
    pub player_name: Option<String>,
    pub player_uuid: Option<u128>,
    pub game_name: Option<String>,
    /// Whether a game's inbound channel is held.
    pub bound: bool,
}

impl Session {
    /// A connection that has said nothing yet.
    pub fn new() -> (r: Session)
        ensures
            r.player_name is None,
            r.player_uuid is None,
            r.game_name is None,
            !r.bound,
    {
        Session { player_name: None, player_uuid: None, game_name: None, bound: false }
    }

    /// The step for event `ev`.
    ///
    /// A create or join request first records who the connection speaks
    /// for. A create request for a taken name is answered
    /// `GameAlreadyExists`, with settings that cannot build a map
    /// `InvalidMsg`; otherwise the game is created and the connection bound
    /// to it. A join request binds to a game found, else is answered
    /// `GameNotExists`. An action goes to the bound game as the player's, or
    /// is answered `NotConnectedToAnyGame`. A failed send is answered
    /// `UnableToCommunicateWithGame`, an unreadable line `InvalidMsg`. On
    /// close the bound game is told the player left.
    pub fn step(&mut self, ev: SessionEvent) -> (r: SessionStep)
        ensures
            match ev {
                SessionEvent::NewGame { player_name, player_uuid, game_name, game_settings, taken } => {
                    &&& final(self).player_uuid == Some(player_uuid)
                    &&& final(self).player_name matches Some(s) && s@ == player_name@
                    &&& final(self).game_name matches Some(s) && s@ == game_name@
                    &&& if taken {
                        r == SessionStep::Reply(LobbyToPlayer::GameAlreadyExists) && final(self).bound
                            == old(self).bound
                    } else if !settings_ok(game_settings) {
                        r == SessionStep::Reply(LobbyToPlayer::InvalidMsg) && final(self).bound == old(
                            self,
                        ).bound
                    } else {
                        &&& final(self).bound
                        &&& r matches SessionStep::CreateAndConnect { game_name: g, game_settings: s, player_uuid: u, player_name: n }
                            && g@ == game_name@ && s == game_settings && u == player_uuid && n@ == player_name@
                    }
                },
                SessionEvent::JoinGame { player_name, player_uuid, game_name, found } => {
                    &&& final(self).player_uuid == Some(player_uuid)
                    &&& final(self).player_name matches Some(s) && s@ == player_name@
                    &&& final(self).game_name matches Some(s) && s@ == game_name@
                    &&& if found {
                        &&& final(self).bound
                        &&& r matches SessionStep::Connect { player_uuid: u, player_name: n } && u == player_uuid
                            && n@ == player_name@
                    } else {
                        r == SessionStep::Reply(LobbyToPlayer::GameNotExists) && final(self).bound == old(
                            self,
                        ).bound
                    }
                },
                SessionEvent::Act(a) => {
                    &&& *final(self) == *old(self)
                    &&& r == match old(self).player_uuid {
                        Some(u) => if old(self).bound {
                            SessionStep::Forward { player_uuid: u, action: a }
                        } else {
                            SessionStep::Reply(LobbyToPlayer::NotConnectedToAnyGame)
                        },
                        None => SessionStep::Reply(LobbyToPlayer::NotConnectedToAnyGame),
                    }
                },
                SessionEvent::SendFailed => *final(self) == *old(self) && r == SessionStep::Reply(
                    LobbyToPlayer::UnableToCommunicateWithGame,
                ),
                SessionEvent::Invalid => *final(self) == *old(self) && r == SessionStep::Reply(
                    LobbyToPlayer::InvalidMsg,
                ),
                SessionEvent::Closed => {
                    &&& *final(self) == *old(self)
                    &&& r == match old(self).player_uuid {
                        Some(u) => if old(self).bound {
                            SessionStep::Disconnect { player_uuid: u }
                        } else {
                            SessionStep::Done
                        },
                        None => SessionStep::Done,
                    }
                },
            },
    {
        match ev {
            SessionEvent::NewGame { player_name, player_uuid, game_name, game_settings, taken } => {
                self.player_name = Some(player_name.clone());
                self.player_uuid = Some(player_uuid);
                self.game_name = Some(game_name.clone());
                if taken {
                    SessionStep::Reply(LobbyToPlayer::GameAlreadyExists)
                } else if !settings_valid(&game_settings) {
                    SessionStep::Reply(LobbyToPlayer::InvalidMsg)
                } else {
                    self.bound = true;
                    SessionStep::CreateAndConnect { game_name, game_settings, player_uuid, player_name }
                }
            },
            SessionEvent::JoinGame { player_name, player_uuid, game_name, found } => {
                self.player_name = Some(player_name.clone());
                self.player_uuid = Some(player_uuid);
                self.game_name = Some(game_name);
                if found {
                    self.bound = true;
                    SessionStep::Connect { player_uuid, player_name }
                } else {
                    SessionStep::Reply(LobbyToPlayer::GameNotExists)
                }
            },
            SessionEvent::Act(a) => match self.player_uuid {
                Some(u) => {
                    if self.bound {
                        SessionStep::Forward { player_uuid: u, action: a }
                    } else {
                        SessionStep::Reply(LobbyToPlayer::NotConnectedToAnyGame)
                    }
                },
                None => SessionStep::Reply(LobbyToPlayer::NotConnectedToAnyGame),
            },
            SessionEvent::SendFailed => SessionStep::Reply(LobbyToPlayer::UnableToCommunicateWithGame),
            SessionEvent::Invalid => SessionStep::Reply(LobbyToPlayer::InvalidMsg),
            SessionEvent::Closed => match self.player_uuid {
                Some(u) => {
                    if self.bound {
                        SessionStep::Disconnect { player_uuid: u }
                    } else {
                        SessionStep::Done
                    }
                },
                None => SessionStep::Done,
            },
        }
    }
}

} // verus!
