//! Multiplayer rooms: who is in which room, and room summaries for
//! clients.  Identifier strings and timestamps come from the caller;
//! the room logic itself is pure bookkeeping.

use vstd::prelude::*;

verus! {

/// Whether a sequence of player ids lists one with the given text.
pub open spec fn lists_player(players: Seq<String>, player_id: Seq<char>) -> bool {
    exists|k: int| 0 <= k < players.len() && (#[trigger] players[k])@ == player_id
}

/// How far a room's game has progressed.
#[derive(Debug, Clone, Copy, PartialEq, Eq, Structural)]
pub enum GameState {
    /// Waiting for players.
    Waiting,
    /// The game is being played.
    Playing,
    /// The game is over.
    Finished,
}

/// A multiplayer room: its identity, its members (by player id), and
/// the state of its game.
#[derive(Debug, Clone, PartialEq)]
pub struct GameRoom {
    /// The room's identifier.
    pub id: String,
    /// The room's display name.
    pub name: String,
    /// The ids of the players in the room, in joining order.
    pub players: Vec<String>,
    /// How many players the room holds at most.
    pub max_players: u8,
    /// The state of the room's game.
    pub game_state: GameState,
    /// When the room was created, in seconds since the epoch.
    pub created_at: u64,
}

impl GameRoom {
    /// Creates an empty, waiting room.  The identifier and the
    /// creation time come from the caller.
    pub fn new(id: String, name: String, max_players: u8, now: u64) -> (room: GameRoom)
        ensures
            room.id == id,
            room.name == name,
            room.players@ == Seq::<String>::empty(),
            room.max_players == max_players,
            room.game_state == GameState::Waiting,
            room.created_at == now,
    {
        GameRoom {
            id,
            name,
            players: Vec::new(),
            max_players,
            game_state: GameState::Waiting,
            created_at: now,
        }
    }

    /// Lets `player_id` join if the room has space and the player is
    /// not already in it; reports whether the player joined.
    pub fn add_player(&mut self, player_id: String) -> (joined: bool)
        ensures
            joined == (old(self).players@.len() < old(self).max_players && !lists_player(
                old(self).players@,
                player_id@,
            )),
            joined ==> *final(self) == (GameRoom {
                players: final(self).players,
                ..*old(self)
            }) && final(self).players@ == old(self).players@.push(player_id),
            !joined ==> *final(self) == *old(self),
    {
        if self.players.len() < self.max_players as usize && !self.contains_player(&player_id) {
            self.players.push(player_id);
            true
        } else {
            false
        }
    }

    /// Takes every entry for `player_id` out of the room; reports
    /// whether the player was in it.
    pub fn remove_player(&mut self, player_id: &str) -> (found: bool)
        ensures
            found == lists_player(old(self).players@, player_id@),
            *final(self) == (GameRoom { players: final(self).players, ..*old(self) }),
            final(self).players@ == old(self).players@.filter(|p: String| p@ != player_id@),
    {
        let pid: String = player_id.to_owned();
        let ghost s0 = self.players@;
        let mut kept: Vec<String> = Vec::new();
        let mut found = false;
        proof {
            reveal(Seq::filter);
            assert(s0.take(0).filter(|p: String| p@ != player_id@) =~= Seq::<String>::empty());
        }
        let n = self.players.len();
        let mut i: usize = 0;
        while i < n
            invariant
                pid@ == player_id@,
                n == self.players@.len(),
                self.players@ == s0,
                0 <= i <= n,
                kept@ == s0.take(i as int).filter(|p: String| p@ != player_id@),
                found == lists_player(s0.take(i as int), player_id@),
            decreases n - i,
        {
            proof {
                reveal(Seq::filter);
                assert(s0.take(i + 1) =~= s0.take(i as int).push(s0[i as int]));
                assert(s0.take(i + 1).drop_last() =~= s0.take(i as int));
                if lists_player(s0.take(i as int), player_id@) {
                    let k = choose|k: int|
                        0 <= k < i && (#[trigger] s0.take(i as int)[k])@ == player_id@;
                    assert((s0.take(i + 1)[k])@ == player_id@);
                }
            }
            if self.players[i] == pid {
                found = true;
                proof {
                    assert((s0.take(i + 1)[i as int])@ == player_id@);
                }
            } else {
                let p = self.players[i].clone();
                kept.push(p);
            }
            i += 1;
        }
        proof {
            assert(s0.take(n as int) =~= s0);
        }
        self.players = kept;
        found
    }

    /// Whether the room is at (or beyond) its player limit.
    pub fn is_full(&self) -> (b: bool)
        ensures
            b == (self.players@.len() >= self.max_players),
    {
        self.players.len() >= self.max_players as usize
    }

    /// Whether `player_id` is in the room.
    pub fn contains_player(&self, player_id: &String) -> (b: bool)
        ensures
            b == lists_player(self.players@, player_id@),
    {
        let n = self.players.len();
        let mut i: usize = 0;
        while i < n
            invariant
                n == self.players@.len(),
                0 <= i <= n,
                forall|k: int| 0 <= k < i ==> (#[trigger] self.players@[k])@ != player_id@,
            decreases n - i,
        {
            if self.players[i] == *player_id {
                proof {
                    assert((self.players@[i as int])@ == player_id@);
                }
                return true;
            }
            i += 1;
        }
        false
    }
}

/// A room summary for clients: identity, occupancy, and game state.
#[derive(Debug, Clone, PartialEq)]
pub struct RoomInfo {
    /// The room's identifier.
    pub id: String,
    /// The room's display name.
    pub name: String,
    /// How many players are in the room.
    pub player_count: u8,
    /// How many players the room holds at most.
    pub max_players: u8,
    /// The state of the room's game.
    pub game_state: GameState,
}

impl RoomInfo {
    /// Summarizes a room.
    pub fn of_room(room: &GameRoom) -> (info: RoomInfo)
        requires
            room.players@.len() <= u8::MAX,
        ensures
            info.id == room.id,
            info.name == room.name,
            info.player_count == room.players@.len(),
            info.max_players == room.max_players,
            info.game_state == room.game_state,
    {
        RoomInfo {
            id: room.id.clone(),
            name: room.name.clone(),
            player_count: room.players.len() as u8,
            max_players: room.max_players,
            game_state: room.game_state,
        }
    }
}

} // verus!
