//! Game-session state: phases, turns, and recorded player actions,
//! all stored as components in a world.
//!
//! Wall-clock readings never happen here; every timestamped
//! operation takes the current time (seconds since the epoch) as a
//! plain argument, so that the logic stays a total function of its
//! inputs.

use vstd::prelude::*;

use crate::ecs::{Component, Entity, Registry, System, World};

verus! {

/// The progress phase of a game session.  Transitions happen only in
/// the fixed order that `can_transition_to` admits.
#[derive(Debug, Clone, Copy, PartialEq, Eq, Structural)]
pub enum GamePhase {
    /// Waiting for players to join.
    WaitingForPlayers,
    /// Preparing the start (dealing cards and the like).
    Starting,
    /// The game is being played.
    Playing,
    /// The game is paused.
    Paused,
    /// The game ended with a decision.
    Finished,
    /// The game was abandoned or failed.
    Aborted,
}

impl GamePhase {
    /// The phase's wire label.
    pub open spec fn label(self) -> Seq<char> {
        match self {
            GamePhase::WaitingForPlayers => "waiting_for_players"@,
            GamePhase::Starting => "starting"@,
            GamePhase::Playing => "playing"@,
            GamePhase::Paused => "paused"@,
            GamePhase::Finished => "finished"@,
            GamePhase::Aborted => "aborted"@,
        }
    }

    /// The phase's wire label, as a string.
    pub fn as_str(&self) -> (s: &'static str)
        ensures
            s@ == self.label(),
    {
        match self {
            GamePhase::WaitingForPlayers => "waiting_for_players",
            GamePhase::Starting => "starting",
            GamePhase::Playing => "playing",
            GamePhase::Paused => "paused",
            GamePhase::Finished => "finished",
            GamePhase::Aborted => "aborted",
        }
    }

    /// The transition table: waiting leads to starting, starting to
    /// playing, playing to paused or finished, paused back to
    /// playing; any phase may abort; and a finished or aborted game
    /// may return to waiting for a new round.
    pub open spec fn spec_can_transition_to(self, target: GamePhase) -> bool {
        ||| (self == GamePhase::WaitingForPlayers && target == GamePhase::Starting)
        ||| (self == GamePhase::Starting && target == GamePhase::Playing)
        ||| (self == GamePhase::Playing && target == GamePhase::Paused)
        ||| (self == GamePhase::Paused && target == GamePhase::Playing)
        ||| (self == GamePhase::Playing && target == GamePhase::Finished)
        ||| target == GamePhase::Aborted
        ||| ((self == GamePhase::Finished || self == GamePhase::Aborted) && target
            == GamePhase::WaitingForPlayers)
    }

    /// Whether the session may move from this phase to `target`.
    pub fn can_transition_to(&self, target: GamePhase) -> (b: bool)
        ensures
            b == self.spec_can_transition_to(target),
    {
        match (self, target) {
            (GamePhase::WaitingForPlayers, GamePhase::Starting) => true,
            (GamePhase::Starting, GamePhase::Playing) => true,
            (GamePhase::Playing, GamePhase::Paused) => true,
            (GamePhase::Paused, GamePhase::Playing) => true,
            (GamePhase::Playing, GamePhase::Finished) => true,
            (_, GamePhase::Aborted) => true,
            (GamePhase::Finished, GamePhase::WaitingForPlayers) => true,
            (GamePhase::Aborted, GamePhase::WaitingForPlayers) => true,
            _ => false,
        }
    }
}

/// Tunable settings of a game session.
#[derive(Debug, Clone, PartialEq, Eq, Structural)]
pub struct GameSettings {
    /// Time limit of the whole session in seconds; 0 means none.
    pub time_limit: u32,
    /// Time limit of one turn in seconds.
    pub turn_time_limit: u32,
    /// Whether extra diagnostics are wanted.
    pub debug_mode: bool,
    /// Whether the session saves automatically.
    pub auto_save: bool,
    /// Whether spectators may watch.
    pub allow_spectators: bool,
}

impl GameSettings {
    /// The settings every new session starts with.
    pub open spec fn standard() -> GameSettings {
        GameSettings {
            time_limit: 0,
            turn_time_limit: 30,
            debug_mode: false,
            auto_save: true,
            allow_spectators: true,
        }
    }
}

impl Default for GameSettings {
    /// No session limit, 30 seconds per turn, no diagnostics,
    /// automatic saving, spectators allowed.
    fn default() -> (s: GameSettings)
        ensures
            s == GameSettings::standard(),
    {
        GameSettings {
            time_limit: 0,
            turn_time_limit: 30,
            debug_mode: false,
            auto_save: true,
            allow_spectators: true,
        }
    }
}

/// The state of one game session: usually one such component exists
/// per session.
#[derive(Debug, Clone, PartialEq)]
pub struct GameState {
    /// The session's identifier.
    pub session_id: String,
    /// The current phase.
    pub phase: GamePhase,
    /// When the session was created, in seconds since the epoch.
    pub start_time: u64,
    /// How many players may join at most.
    pub max_players: u32,
    /// How many players have joined.
    pub current_players: u32,
    /// The session's settings.
    pub settings: GameSettings,
}

impl GameState {
    /// Creates a session that waits for players, created at time
    /// `now` (seconds since the epoch, supplied by the caller).
    pub fn new(session_id: String, max_players: u32, now: u64) -> (g: GameState)
        ensures
            g.session_id == session_id,
            g.phase == GamePhase::WaitingForPlayers,
            g.start_time == now,
            g.max_players == max_players,
            g.current_players == 0,
            g.settings == GameSettings::standard(),
    {
        GameState {
            session_id,
            phase: GamePhase::WaitingForPlayers,
            start_time: now,
            max_players,
            current_players: 0,
            settings: GameSettings::default(),
        }
    }

    /// Whether the game may start: it is waiting for players, and
    /// between two and `max_players` players have joined.
    pub fn can_start(&self) -> (b: bool)
        ensures
            b == (self.phase == GamePhase::WaitingForPlayers && 2 <= self.current_players
                <= self.max_players),
    {
        self.phase == GamePhase::WaitingForPlayers && self.current_players >= 2
            && self.current_players <= self.max_players
    }

    /// Sets the phase.  Whether the move is legal is the caller's
    /// check, via `can_transition_to`.
    pub fn change_phase(&mut self, new_phase: GamePhase)
        ensures
            *final(self) == (GameState { phase: new_phase, ..*old(self) }),
    {
        self.phase = new_phase;
    }

    /// Adds one player if the session is not full; reports whether
    /// it did.
    pub fn add_player(&mut self) -> (b: bool)
        ensures
            b == (old(self).current_players < old(self).max_players),
            b ==> *final(self) == (GameState {
                current_players: (old(self).current_players + 1) as u32,
                ..*old(self)
            }),
            !b ==> *final(self) == *old(self),
    {
        if self.current_players < self.max_players {
            self.current_players = self.current_players + 1;
            true
        } else {
            false
        }
    }

    /// Removes one player if any is left; reports whether it did.
    pub fn remove_player(&mut self) -> (b: bool)
        ensures
            b == (old(self).current_players > 0),
            b ==> *final(self) == (GameState {
                current_players: (old(self).current_players - 1) as u32,
                ..*old(self)
            }),
            !b ==> *final(self) == *old(self),
    {
        if self.current_players > 0 {
            self.current_players = self.current_players - 1;
            true
        } else {
            false
        }
    }
}

/// Round-robin turn control: who plays now, in which order the
/// players follow each other, and when the running turn began.
#[derive(Debug, Clone, PartialEq)]
pub struct TurnManager {
    /// The player whose turn it is, if any player is left.
    pub current_player: Option<Entity>,
    /// The order of play; the front is the current player.
    pub turn_order: std::collections::VecDeque<Entity>,
    /// The number of the running turn, starting at 1.
    pub turn_number: u32,
    /// When the running turn began, in seconds since the epoch.
    pub turn_start_time: u64,
    /// Time limit of one turn in seconds; 0 means none.
    pub turn_time_limit: u32,
}

impl TurnManager {
    /// How much of the running turn is left at time `now`: the full
    /// limit minus the elapsed seconds, never below zero; an absent
    /// result means no limit.
    pub open spec fn spec_remaining_time(self, now: u64) -> Option<u32> {
        if self.turn_time_limit == 0 {
            None
        } else {
            let elapsed = if now >= self.turn_start_time {
                now - self.turn_start_time
            } else {
                0
            };
            if elapsed >= self.turn_time_limit {
                Some(0u32)
            } else {
                Some((self.turn_time_limit - elapsed) as u32)
            }
        }
    }

    /// Creates turn control over `players`, in the given order,
    /// turn 1 starting at time `now`.
    pub fn new(players: Vec<Entity>, turn_time_limit: u32, now: u64) -> (tm: TurnManager)
        ensures
            tm.turn_order@ == players@,
            tm.current_player == (if players@.len() > 0 {
                Some(players@[0])
            } else {
                None::<Entity>
            }),
            tm.turn_number == 1,
            tm.turn_start_time == now,
            tm.turn_time_limit == turn_time_limit,
    {
        let mut turn_order: std::collections::VecDeque<Entity> =
            std::collections::VecDeque::new();
        let n = players.len();
        let mut i: usize = 0;
        while i < n
            invariant
                n == players@.len(),
                0 <= i <= n,
                turn_order@ == players@.take(i as int),
            decreases n - i,
        {
            turn_order.push_back(players[i]);
            proof {
                assert(players@.take(i + 1) =~= players@.take(i as int).push(players@[i as int]));
            }
            i += 1;
        }
        proof {
            assert(players@.take(n as int) =~= players@);
        }
        let current_player = if turn_order.len() > 0 {
            Some(turn_order[0])
        } else {
            None
        };
        TurnManager {
            current_player,
            turn_order,
            turn_number: 1,
            turn_start_time: now,
            turn_time_limit,
        }
    }

    /// Moves the turn to the next player, rotating the order by one
    /// (the player who just played goes to the back), and starts the
    /// new turn at time `now`.  Returns the player now at the front,
    /// if any.
    pub fn next_turn(&mut self, now: u64) -> (next: Option<Entity>)
        requires
            old(self).turn_number < u32::MAX,
        ensures
            old(self).turn_order@.len() == 0 ==> final(self).turn_order@ == old(self).turn_order@ && next == None::<Entity>,
            old(self).turn_order@.len() > 0 ==> final(self).turn_order@ == old(self).turn_order@.drop_first().push(old(self).turn_order@[0]) && next == Some(
                final(self).turn_order@[0],
            ),
            final(self).current_player == next,
            final(self).turn_number == old(self).turn_number + 1,
            final(self).turn_start_time == now,
            final(self).turn_time_limit == old(self).turn_time_limit,
    {
        if let Some(current) = self.turn_order.pop_front() {
            self.turn_order.push_back(current);
        }
        self.current_player = if self.turn_order.len() > 0 {
            Some(self.turn_order[0])
        } else {
            None
        };
        self.turn_number = self.turn_number + 1;
        self.turn_start_time = now;
        self.current_player
    }

    /// How much of the running turn is left at time `now`; absent
    /// when the turn has no limit.
    pub fn remaining_time(&self, now: u64) -> (r: Option<u32>)
        ensures
            r == self.spec_remaining_time(now),
    {
        if self.turn_time_limit == 0 {
            return None;
        }
        let elapsed: u64 = now.saturating_sub(self.turn_start_time);
        if elapsed >= self.turn_time_limit as u64 {
            Some(0)
        } else {
            Some(self.turn_time_limit - elapsed as u32)
        }
    }

    /// Whether the running turn's limit has run out at time `now`.
    /// A turn without a limit never runs out.
    pub fn is_time_up(&self, now: u64) -> (b: bool)
        ensures
            b == (self.spec_remaining_time(now) == Some(0u32)),
    {
        match self.remaining_time(now) {
            Some(remaining) => remaining == 0,
            None => false,
        }
    }

    /// Takes `player` out of the order entirely.  Reports whether
    /// the player was listed; when the removed player was current,
    /// the player now at the front becomes current.
    pub fn remove_player(&mut self, player: Entity) -> (found: bool)
        ensures
            final(self).turn_order@ == old(self).turn_order@.filter(|p: Entity| p != player),
            found == old(self).turn_order@.contains(player),
            final(self).current_player == (if old(self).current_player == Some(player) {
                if final(self).turn_order@.len() > 0 {
                    Some(final(self).turn_order@[0])
                } else {
                    None::<Entity>
                }
            } else {
                old(self).current_player
            }),
            final(self).turn_number == old(self).turn_number,
            final(self).turn_start_time == old(self).turn_start_time,
            final(self).turn_time_limit == old(self).turn_time_limit,
    {
        let ghost s0 = self.turn_order@;
        let mut kept: std::collections::VecDeque<Entity> = std::collections::VecDeque::new();
        let mut found = false;
        proof {
            reveal(Seq::filter);
            assert(s0.take(0).filter(|p: Entity| p != player) =~= Seq::<Entity>::empty());
        }
        let n = self.turn_order.len();
        let mut i: usize = 0;
        while i < n
            invariant
                n == self.turn_order@.len(),
                self.turn_order@ == s0,
                0 <= i <= n,
                kept@ == s0.take(i as int).filter(|p: Entity| p != player),
                found == s0.take(i as int).contains(player),
            decreases n - i,
        {
            let e = self.turn_order[i];
            proof {
                reveal(Seq::filter);
                assert(s0.take(i + 1) =~= s0.take(i as int).push(s0[i as int]));
                assert(s0.take(i + 1).drop_last() =~= s0.take(i as int));
                if e == player {
                    assert(s0.take(i + 1)[i as int] == player);
                } else if s0.take(i + 1).contains(player) {
                    let t1 = s0.take(i + 1);
                    let k = choose|k: int| 0 <= k < t1.len() && #[trigger] t1[k] == player;
                    if k < i {
                        assert(s0.take(i as int)[k] == player);
                    }
                }
            }
            if e == player {
                found = true;
            } else {
                kept.push_back(e);
            }
            i += 1;
        }
        proof {
            assert(s0.take(n as int) =~= s0);
        }
        self.turn_order = kept;
        if self.current_player == Some(player) {
            self.current_player = if self.turn_order.len() > 0 {
                Some(self.turn_order[0])
            } else {
                None
            };
        }
        found
    }
}

/// The kinds of action a player can take.
#[derive(Debug, Clone, Copy, PartialEq, Eq, Structural)]
pub enum ActionType {
    /// Move a card.
    MoveCard,
    /// Turn a card over.
    FlipCard,
    /// Draw a card.
    DrawCard,
    /// End the turn.
    EndTurn,
    /// Leave the game.
    LeaveGame,
    /// Send a chat message.
    SendMessage,
    /// Change the session settings.
    ChangeSettings,
}

impl ActionType {
    /// The action's wire label.
    pub open spec fn label(self) -> Seq<char> {
        match self {
            ActionType::MoveCard => "move_card"@,
            ActionType::FlipCard => "flip_card"@,
            ActionType::DrawCard => "draw_card"@,
            ActionType::EndTurn => "end_turn"@,
            ActionType::LeaveGame => "leave_game"@,
            ActionType::SendMessage => "send_message"@,
            ActionType::ChangeSettings => "change_settings"@,
        }
    }

    /// The action's wire label, as a string.
    pub fn as_str(&self) -> (s: &'static str)
        ensures
            s@ == self.label(),
    {
        match self {
            ActionType::MoveCard => "move_card",
            ActionType::FlipCard => "flip_card",
            ActionType::DrawCard => "draw_card",
            ActionType::EndTurn => "end_turn",
            ActionType::LeaveGame => "leave_game",
            ActionType::SendMessage => "send_message",
            ActionType::ChangeSettings => "change_settings",
        }
    }
}

/// One recorded player action, stored as a component so that other
/// systems and peers can observe it.
#[derive(Debug, Clone, PartialEq)]
pub struct GameAction {
    /// Who acted.
    pub player: Entity,
    /// What kind of action it was.
    pub action_type: ActionType,
    /// When it happened, in seconds since the epoch.
    pub timestamp: u64,
    /// Free-form detail, if any.
    pub data: Option<String>,
}

impl GameAction {
    /// Records an action by `player` at time `now`.
    pub fn new(player: Entity, action_type: ActionType, data: Option<String>, now: u64) -> (a:
        GameAction)
        ensures
            a.player == player,
            a.action_type == action_type,
            a.timestamp == now,
            a.data == data,
    {
        GameAction { player, action_type, timestamp: now, data }
    }
}

/// The two session states agree except for the phase.
pub open spec fn only_phase_changed(before: GameState, after: GameState) -> bool {
    after == (GameState { phase: after.phase, ..before })
}

/// The two turn controls agree on the player set and the time
/// limit; the turn may have moved on.
pub open spec fn only_turn_advanced(before: TurnManager, after: TurnManager) -> bool {
    &&& after == (TurnManager {
        current_player: after.current_player,
        turn_number: after.turn_number,
        turn_start_time: after.turn_start_time,
        turn_order: after.turn_order,
        ..before
    })
    &&& after.turn_order@.to_multiset() == before.turn_order@.to_multiset()
}

/// Rotating a sequence by one keeps its bag of elements.
proof fn lemma_rotation_keeps_multiset<T>(s: Seq<T>)
    requires
        s.len() > 0,
    ensures
        s.drop_first().push(s[0]).to_multiset() == s.to_multiset(),
{
    broadcast use vstd::seq_lib::group_to_multiset_ensures;

    assert(s.drop_first() =~= s.remove(0));
    assert(s.remove(0).to_multiset() =~= s.to_multiset().remove(s[0]));
    assert(s.contains(s[0]));
    assert(s.to_multiset().count(s[0]) > 0);
    assert(s.drop_first().push(s[0]).to_multiset() =~= s.to_multiset().remove(s[0]).insert(
        s[0],
    ));
    assert(s.to_multiset().remove(s[0]).insert(s[0]) =~= s.to_multiset());
}

/// Advances session phases: a waiting session with enough players
/// moves to starting, and a starting session moves to playing.
pub struct GameManagementSystem;

impl<R: Registry> System<R> for GameManagementSystem where GameState: Component<R> {
    /// The roster and id counter stay; only the `GameState` slot of
    /// the registry changes, and no session appears or disappears.
    open spec fn effect(
        pre: GameManagementSystem,
        w_pre: World<R>,
        post: GameManagementSystem,
        w_post: World<R>,
        delta_time: u64,
    ) -> bool {
        &&& w_post.next_id() == w_pre.next_id()
        &&& w_post.entity_seq() == w_pre.entity_seq()
        &&& w_post.registry() == <GameState as Component<R>>::with_storage(
            w_pre.registry(),
            <GameState as Component<R>>::storage_of(w_post.registry()),
        )
        &&& w_post.component_map::<GameState>().dom() == w_pre.component_map::<GameState>().dom()
        &&& forall|e: Entity|
            #[trigger] w_post.component_map::<GameState>().dom().contains(e)
                ==> only_phase_changed(
                w_pre.component_map::<GameState>()[e],
                w_post.component_map::<GameState>()[e],
            )
    }

    fn update(&mut self, world: &mut World<R>, delta_time: u64) {
        let ghost r0 = old(world).registry();
        let ghost m0 = old(world).component_map::<GameState>();
        let ghost dom0 = old(world).component_map::<GameState>().dom();
        proof {
            <GameState as Component<R>>::lemma_with_storage_self(r0);
        }
        let mut phase_changes: Vec<(Entity, GamePhase)> = Vec::new();
        let entries = world.query::<GameState>();
        let n = entries.len();
        let mut i: usize = 0;
        while i < n
            invariant
                n == entries@.len(),
                0 <= i <= n,
            decreases n - i,
        {
            let entity = entries[i].0;
            let game_state = &entries[i].1;
            match game_state.phase {
                GamePhase::WaitingForPlayers => {
                    if game_state.can_start() {
                        phase_changes.push((entity, GamePhase::Starting));
                    }
                },
                GamePhase::Starting => {
                    phase_changes.push((entity, GamePhase::Playing));
                },
                _ => {},
            }
            i += 1;
        }
        let m = phase_changes.len();
        let mut j: usize = 0;
        while j < m
            invariant
                m == phase_changes@.len(),
                0 <= j <= m,
                world.wf(),
                world.next_id() == old(world).next_id(),
                world.entity_seq() == old(world).entity_seq(),
                world.registry() == <GameState as Component<R>>::with_storage(
                    r0,
                    <GameState as Component<R>>::storage_of(world.registry()),
                ),
                world.component_map::<GameState>().dom() == dom0,
                forall|e: Entity|
                    #[trigger] world.component_map::<GameState>().dom().contains(e)
                        ==> only_phase_changed(m0[e], world.component_map::<GameState>()[e]),
            decreases m - j,
        {
            let ghost r_mid = world.registry();
            let (entity, new_phase) = (phase_changes[j].0, phase_changes[j].1);
            match world.get_component_mut::<GameState>(entity) {
                Some(game_state) => {
                    if game_state.phase.can_transition_to(new_phase) {
                        game_state.change_phase(new_phase);
                    }
                },
                None => {},
            }
            proof {
                <GameState as Component<R>>::lemma_with_storage_twice(
                    r0,
                    <GameState as Component<R>>::storage_of(r_mid),
                    <GameState as Component<R>>::storage_of(world.registry()),
                );
                assert(world.component_map::<GameState>().dom() =~= dom0);
            }
            j += 1;
        }
    }

    fn name(&self) -> &'static str {
        "GameManagementSystem"
    }
}

/// Watches turn time limits: when the running turn's limit has run
/// out, the turn moves to the next player.  The driver sets `now`
/// before each tick.
pub struct TurnManagementSystem {
    /// The current time, in seconds since the epoch.
    pub now: u64,
}

impl<R: Registry> System<R> for TurnManagementSystem where TurnManager: Component<R> {
    /// The roster and id counter stay; only the `TurnManager` slot
    /// of the registry changes, and no turn control appears or
    /// disappears.
    open spec fn effect(
        pre: TurnManagementSystem,
        w_pre: World<R>,
        post: TurnManagementSystem,
        w_post: World<R>,
        delta_time: u64,
    ) -> bool {
        &&& post == pre
        &&& w_post.next_id() == w_pre.next_id()
        &&& w_post.entity_seq() == w_pre.entity_seq()
        &&& w_post.registry() == <TurnManager as Component<R>>::with_storage(
            w_pre.registry(),
            <TurnManager as Component<R>>::storage_of(w_post.registry()),
        )
        &&& w_post.component_map::<TurnManager>().dom() == w_pre.component_map::<
            TurnManager,
        >().dom()
        &&& forall|e: Entity|
            #[trigger] w_post.component_map::<TurnManager>().dom().contains(e)
                ==> only_turn_advanced(
                w_pre.component_map::<TurnManager>()[e],
                w_post.component_map::<TurnManager>()[e],
            )
    }

    fn update(&mut self, world: &mut World<R>, delta_time: u64) {
        let ghost r0 = old(world).registry();
        let ghost m0 = old(world).component_map::<TurnManager>();
        let ghost dom0 = old(world).component_map::<TurnManager>().dom();
        proof {
            <TurnManager as Component<R>>::lemma_with_storage_self(r0);
        }
        let mut turn_changes: Vec<Entity> = Vec::new();
        let entries = world.query::<TurnManager>();
        let n = entries.len();
        let mut i: usize = 0;
        while i < n
            invariant
                n == entries@.len(),
                0 <= i <= n,
            decreases n - i,
        {
            if entries[i].1.is_time_up(self.now) {
                turn_changes.push(entries[i].0);
            }
            i += 1;
        }
        let m = turn_changes.len();
        let mut j: usize = 0;
        while j < m
            invariant
                m == turn_changes@.len(),
                0 <= j <= m,
                world.wf(),
                world.next_id() == old(world).next_id(),
                world.entity_seq() == old(world).entity_seq(),
                world.registry() == <TurnManager as Component<R>>::with_storage(
                    r0,
                    <TurnManager as Component<R>>::storage_of(world.registry()),
                ),
                world.component_map::<TurnManager>().dom() == dom0,
                forall|e: Entity|
                    #[trigger] world.component_map::<TurnManager>().dom().contains(e)
                        ==> only_turn_advanced(m0[e], world.component_map::<TurnManager>()[e]),
            decreases m - j,
        {
            let ghost r_mid = world.registry();
            let entity = turn_changes[j];
            match world.get_component_mut::<TurnManager>(entity) {
                Some(turn_manager) => {
                    if turn_manager.turn_number < u32::MAX {
                        proof {
                            if turn_manager.turn_order@.len() > 0 {
                                lemma_rotation_keeps_multiset(turn_manager.turn_order@);
                            }
                        }
                        turn_manager.next_turn(self.now);
                    }
                },
                None => {},
            }
            proof {
                <TurnManager as Component<R>>::lemma_with_storage_twice(
                    r0,
                    <TurnManager as Component<R>>::storage_of(r_mid),
                    <TurnManager as Component<R>>::storage_of(world.registry()),
                );
                assert(world.component_map::<TurnManager>().dom() =~= dom0);
            }
            j += 1;
        }
    }

    fn name(&self) -> &'static str {
        "TurnManagementSystem"
    }
}

/// Consumes recorded player actions: every `GameAction` component is
/// taken off the world once it has been looked at.
pub struct ActionProcessingSystem;

impl<R: Registry> System<R> for ActionProcessingSystem where GameAction: Component<R> {
    /// The roster and id counter stay; only the `GameAction` slot of
    /// the registry changes, and afterwards no action is left.
    open spec fn effect(
        pre: ActionProcessingSystem,
        w_pre: World<R>,
        post: ActionProcessingSystem,
        w_post: World<R>,
        delta_time: u64,
    ) -> bool {
        &&& w_post.next_id() == w_pre.next_id()
        &&& w_post.entity_seq() == w_pre.entity_seq()
        &&& w_post.registry() == <GameAction as Component<R>>::with_storage(
            w_pre.registry(),
            <GameAction as Component<R>>::storage_of(w_post.registry()),
        )
        &&& w_post.component_map::<GameAction>() == Map::<Entity, GameAction>::empty()
    }

    fn update(&mut self, world: &mut World<R>, delta_time: u64) {
        let ghost r0 = old(world).registry();
        let ghost map0 = old(world).component_map::<GameAction>();
        proof {
            <GameAction as Component<R>>::lemma_with_storage_self(r0);
        }
        let mut processed: Vec<Entity> = Vec::new();
        let entries = world.query::<GameAction>();
        let n = entries.len();
        let mut i: usize = 0;
        while i < n
            invariant
                n == entries@.len(),
                0 <= i <= n,
                processed@.len() == i,
                forall|k: int| 0 <= k < i ==> (#[trigger] processed@[k]) == entries@[k].0,
            decreases n - i,
        {
            processed.push(entries[i].0);
            i += 1;
        }
        proof {
            assert forall|e: Entity| map0.dom().contains(e) implies processed@.contains(e) by {
                let k = choose|k: int|
                    0 <= k < entries@.len() && (#[trigger] entries@[k]) == (e, map0[e]);
                assert(processed@[k] == e);
            }
        }
        let m = processed.len();
        let mut j: usize = 0;
        while j < m
            invariant
                m == processed@.len(),
                0 <= j <= m,
                world.wf(),
                world.next_id() == old(world).next_id(),
                world.entity_seq() == old(world).entity_seq(),
                world.registry() == <GameAction as Component<R>>::with_storage(
                    r0,
                    <GameAction as Component<R>>::storage_of(world.registry()),
                ),
                forall|e: Entity| map0.dom().contains(e) ==> processed@.contains(e),
                forall|e: Entity|
                    world.component_map::<GameAction>().dom().contains(e) <==> map0.dom().contains(
                        e,
                    ) && !(exists|k: int| 0 <= k < j && processed@[k] == e),
            decreases m - j,
        {
            let ghost r_mid = world.registry();
            let ghost mid_map = world.component_map::<GameAction>();
            let entity = processed[j];
            world.remove_component::<GameAction>(entity);
            proof {
                <GameAction as Component<R>>::lemma_with_storage_twice(
                    r0,
                    <GameAction as Component<R>>::storage_of(r_mid),
                    <GameAction as Component<R>>::storage_of(world.registry()),
                );
                assert(world.component_map::<GameAction>() == mid_map.remove(entity));
                assert(forall|e: Entity|
                    mid_map.dom().contains(e) <==> map0.dom().contains(e) && !(exists|k: int|
                        0 <= k < j && processed@[k] == e));
                assert forall|e: Entity|
                    world.component_map::<GameAction>().dom().contains(e) <==> map0.dom().contains(
                        e,
                    ) && !(exists|k: int| 0 <= k < j + 1 && processed@[k] == e) by {
                    assert(entity == processed@[j as int]);
                    if exists|k: int| 0 <= k < j + 1 && processed@[k] == e {
                        let k = choose|k: int| 0 <= k < j + 1 && (#[trigger] processed@[k]) == e;
                        if k == j {
                            assert(e == entity);
                        } else {
                            assert(0 <= k < j && processed@[k] == e);
                        }
                    }
                    if exists|k: int| 0 <= k < j && processed@[k] == e {
                        let k = choose|k: int| 0 <= k < j && (#[trigger] processed@[k]) == e;
                        assert(0 <= k < j + 1 && processed@[k] == e);
                    }
                    if e == entity {
                        assert(0 <= j < j + 1 && processed@[j as int] == e);
                    }
                }
            }
            j += 1;
        }
        proof {
            assert forall|e: Entity|
                !world.component_map::<GameAction>().dom().contains(e) by {
                if map0.dom().contains(e) {
                    let k = choose|k: int| 0 <= k < processed@.len() && processed@[k] == e;
                    assert(0 <= k < m && processed@[k] == e);
                }
            }
            assert(world.component_map::<GameAction>() =~= Map::<Entity, GameAction>::empty());
        }
    }

    fn name(&self) -> &'static str {
        "ActionProcessingSystem"
    }
}

/// Convenience operations that compose world calls into whole
/// game-management steps.
pub struct GameManager;

impl GameManager {
    /// Creates a new game session: a fresh entity carrying a
    /// `GameState` that waits for players.
    pub fn create_game_session<R: Registry>(
        world: &mut World<R>,
        session_id: String,
        max_players: u32,
        now: u64,
    ) -> (game_entity: Entity) where GameState: Component<R>
        requires
            old(world).wf(),
            old(world).next_id() < u32::MAX,
        ensures
            final(world).wf(),
            game_entity.0 == old(world).next_id(),
            final(world).next_id() == old(world).next_id() + 1,
            final(world).entity_seq() == old(world).entity_seq().push(game_entity),
            final(world).registry() == <GameState as Component<R>>::with_storage(
                old(world).registry(),
                <GameState as Component<R>>::storage_of(final(world).registry()),
            ),
            exists|g: GameState|
                g.session_id == session_id && g.phase == GamePhase::WaitingForPlayers
                    && g.start_time == now && g.max_players == max_players && g.current_players
                    == 0 && g.settings == GameSettings::standard() && final(world).component_map::<GameState>() == old(world).component_map::<GameState>().insert(
                    game_entity,
                    g,
                ),
    {
        let ghost r0 = old(world).registry();
        let game_entity = world.create_entity();
        let game_state = GameState::new(session_id, max_players, now);
        let ghost g = game_state;
        world.add_component::<GameState>(game_entity, game_state);
        proof {
            assert(g.session_id == session_id && g.phase == GamePhase::WaitingForPlayers
                && g.start_time == now && g.max_players == max_players && g.current_players == 0
                && g.settings == GameSettings::standard() && world.component_map::<GameState>()
                == old(world).component_map::<GameState>().insert(game_entity, g));
        }
        game_entity
    }

    /// Lets a player join the session on `game_entity`; reports
    /// whether there was room (and a session).
    pub fn join_player<R: Registry>(
        world: &mut World<R>,
        game_entity: Entity,
        player_entity: Entity,
    ) -> (joined: bool) where GameState: Component<R>
        requires
            old(world).wf(),
        ensures
            final(world).wf(),
            final(world).next_id() == old(world).next_id(),
            final(world).entity_seq() == old(world).entity_seq(),
            final(world).registry() == <GameState as Component<R>>::with_storage(
                old(world).registry(),
                <GameState as Component<R>>::storage_of(final(world).registry()),
            ),
            joined == (old(world).component_map::<GameState>().dom().contains(game_entity) && old(world).component_map::<GameState>()[game_entity].current_players < old(world).component_map::<GameState>()[game_entity].max_players),
            joined ==> final(world).component_map::<GameState>() == old(world).component_map::<GameState>().insert(
                game_entity,
                (GameState {
                    current_players: (old(world).component_map::<GameState>()[game_entity].current_players + 1) as u32,
                    ..old(world).component_map::<GameState>()[game_entity]
                }),
            ),
            !joined ==> final(world).component_map::<GameState>() == old(world).component_map::<GameState>(),
    {
        match world.get_component_mut::<GameState>(game_entity) {
            Some(game_state) => game_state.add_player(),
            None => false,
        }
    }

    /// Starts round-robin turn control over `players` on a fresh
    /// entity, the first turn beginning at time `now`.
    pub fn start_turn_management<R: Registry>(
        world: &mut World<R>,
        game_entity: Entity,
        players: Vec<Entity>,
        turn_time_limit: u32,
        now: u64,
    ) -> (turn_entity: Entity) where TurnManager: Component<R>
        requires
            old(world).wf(),
            old(world).next_id() < u32::MAX,
        ensures
            final(world).wf(),
            turn_entity.0 == old(world).next_id(),
            final(world).next_id() == old(world).next_id() + 1,
            final(world).entity_seq() == old(world).entity_seq().push(turn_entity),
            final(world).registry() == <TurnManager as Component<R>>::with_storage(
                old(world).registry(),
                <TurnManager as Component<R>>::storage_of(final(world).registry()),
            ),
            exists|tm: TurnManager|
                tm.turn_order@ == players@ && tm.current_player == (if players@.len() > 0 {
                    Some(players@[0])
                } else {
                    None::<Entity>
                }) && tm.turn_number == 1 && tm.turn_start_time == now && tm.turn_time_limit
                    == turn_time_limit && final(world).component_map::<TurnManager>() == old(world).component_map::<TurnManager>().insert(turn_entity, tm),
    {
        let turn_entity = world.create_entity();
        let turn_manager = TurnManager::new(players, turn_time_limit, now);
        let ghost tm = turn_manager;
        world.add_component::<TurnManager>(turn_entity, turn_manager);
        proof {
            assert(world.component_map::<TurnManager>() == old(world).component_map::<TurnManager>().insert(turn_entity, tm));
        }
        turn_entity
    }

    /// Records one player action, timestamped `now`, on a fresh
    /// entity, so that other systems can observe and consume it.
    pub fn record_action<R: Registry>(
        world: &mut World<R>,
        player: Entity,
        action_type: ActionType,
        data: Option<String>,
        now: u64,
    ) -> (action_entity: Entity) where GameAction: Component<R>
        requires
            old(world).wf(),
            old(world).next_id() < u32::MAX,
        ensures
            final(world).wf(),
            action_entity.0 == old(world).next_id(),
            final(world).next_id() == old(world).next_id() + 1,
            final(world).entity_seq() == old(world).entity_seq().push(action_entity),
            final(world).registry() == <GameAction as Component<R>>::with_storage(
                old(world).registry(),
                <GameAction as Component<R>>::storage_of(final(world).registry()),
            ),
            exists|a: GameAction|
                a.player == player && a.action_type == action_type && a.timestamp == now && a.data
                    == data && final(world).component_map::<GameAction>() == old(world).component_map::<GameAction>().insert(action_entity, a),
    {
        let action_entity = world.create_entity();
        let game_action = GameAction::new(player, action_type, data, now);
        let ghost a = game_action;
        world.add_component::<GameAction>(action_entity, game_action);
        proof {
            assert(world.component_map::<GameAction>() == old(world).component_map::<GameAction>().insert(action_entity, a));
        }
        action_entity
    }
}

} // verus!
